//! How the quota of an account is brought up to date: which step comes next, and what is noted down
//! in the account.
//!
//! Tokens are fetched, quotas asked for and accounts saved elsewhere. A refresh says what to do next,
//! and is told what came of it.
use vstd::prelude::*;

use crate::billing::unlimited_message;
use crate::errors::{calls_for_new_token, should_force_refresh_token};
use crate::quota::{
    is_error_info, same_but_error, should_refresh_account_in_batch, sync_plan_type_from_token,
    takes_part, write_quota_error_at, CodexAccount, CodexQuota, CodexTokens, FetchQuotaResult,
};
use crate::search::{contains, holds, stands_at};
use crate::text::{chars_of, is_blank};

verus! {

// ---------------------------------------------------------------------------------------------
// Steps
// ---------------------------------------------------------------------------------------------
/// How far a refresh has come: its tokens are renewed because they ran out, its quota is asked for,
/// its tokens are renewed because the service refused them, its quota is asked for once more.
#[derive(Debug, Clone, Copy, PartialEq, Eq)]
pub enum RefreshPhase {
    Expired,
    First,
    Forced,
    Retry,
}

/// A refresh of the quota of an account.
#[derive(Debug, PartialEq)]
pub struct QuotaRefresh {
    pub account: CodexAccount,
    pub phase: RefreshPhase,
}

/// What to do next in a refresh: ask the interface of the API key, renew the tokens, save the account
/// and ask for the quota, ask for the quota, save the account and succeed, or save the account and
/// fail. Where the account is on another plan than before, the index of accounts must know.
#[derive(Debug, PartialEq)]
pub enum RefreshStep {
    AskApiKey,
    RefreshTokens { refresh_token: String, id_token: String, reason: String },
    SaveThenFetch { plan_changed: bool },
    Fetch,
    SaveThenSucceed { quota: CodexQuota, plan_changed: bool },
    SaveThenFail { message: String },
}

/// Why the tokens of an account are renewed.
pub open spec fn reason(phase: RefreshPhase) -> Seq<char> {
    match phase {
        RefreshPhase::Expired => "Token 已过期"@,
        _ => "配额接口返回 Token 失效"@,
    }
}

fn reason_text(phase: RefreshPhase) -> (r: String)
    ensures
        r@ == reason(phase),
{
    match phase {
        RefreshPhase::Expired => "Token 已过期".to_owned(),
        _ => "配额接口返回 Token 失效".to_owned(),
    }
}

/// Whether a step fails with a message, and the account has noted down why and when and has not
/// changed otherwise.
pub open spec fn fails_with(
    before: CodexAccount,
    after: CodexAccount,
    step: RefreshStep,
    message: Seq<char>,
    now: int,
) -> bool {
    &&& step matches RefreshStep::SaveThenFail { message: m } && m@ == message
    &&& same_but_error(before, after)
    &&& after.quota_error matches Some(info) && is_error_info(info, message, now)
}

/// Whether a step renews the tokens of an account, or fails where there is nothing to renew them
/// with.
pub open spec fn renews_tokens(
    before: CodexAccount,
    after: CodexAccount,
    step: RefreshStep,
    phase: RefreshPhase,
    now: int,
) -> bool {
    match before.tokens.refresh_token {
        Some(token) => {
            &&& after == before
            &&& step matches RefreshStep::RefreshTokens { refresh_token, id_token, reason: why }
                && refresh_token@ == token@ && id_token@ == before.tokens.id_token@ && why@
                == reason(phase)
        },
        None => fails_with(
            before,
            after,
            step,
            reason(phase) + "，且账号缺少 refresh_token"@,
            now,
        ),
    }
}

/// The phase in which the quota is asked for once the tokens were renewed.
pub open spec fn phase_after_tokens(phase: RefreshPhase) -> RefreshPhase {
    match phase {
        RefreshPhase::Expired => RefreshPhase::First,
        _ => RefreshPhase::Retry,
    }
}

/// Whether an account is on the plan that is named, where one is, and was on another one before.
pub open spec fn plan_taken_over(
    before: Option<String>,
    after: Option<String>,
    named: Option<Seq<char>>,
    changed: bool,
) -> bool {
    match named {
        None => !changed && after == before,
        Some(plan) => {
            &&& changed == (before.deep_view() != Some(plan))
            &&& after.deep_view() == Some(plan)
        },
    }
}

/// Whether a refresh has taken new tokens, or why there are none, as it should. `plan` is the plan
/// that the new tokens name, as far as they could be read.
pub open spec fn tokens_taken(
    before: QuotaRefresh,
    after: QuotaRefresh,
    step: RefreshStep,
    reply: Result<CodexTokens, String>,
    plan: Option<Option<String>>,
    now: int,
) -> bool {
    match reply {
        Err(e) => {
            &&& after.phase == before.phase
            &&& fails_with(
                before.account,
                after.account,
                step,
                reason(before.phase) + "，刷新 Token 失败: "@ + e@,
                now,
            )
        },
        Ok(tokens) => {
            &&& after.phase == phase_after_tokens(before.phase)
            &&& after.account == (CodexAccount {
                tokens,
                plan_type: after.account.plan_type,
                ..before.account
            })
            &&& step matches RefreshStep::SaveThenFetch { plan_changed } && plan_taken_over(
                before.account.plan_type,
                after.account.plan_type,
                match plan {
                    Some(named) => named.deep_view(),
                    None => None,
                },
                plan_changed,
            )
        },
    }
}

/// Whether a refresh has taken the quota, or why there is none, as it should. A service that refuses
/// the tokens is asked once more, with new tokens.
pub open spec fn quota_taken(
    before: QuotaRefresh,
    after: QuotaRefresh,
    step: RefreshStep,
    reply: Result<FetchQuotaResult, String>,
    now: int,
) -> bool {
    match reply {
        Ok(fetched) => {
            &&& after.phase == before.phase
            &&& after.account == (CodexAccount {
                plan_type: after.account.plan_type,
                quota: after.account.quota,
                quota_error: None,
                usage_updated_at: Some(now as i64),
                ..before.account
            })
            &&& after.account.quota.deep_view() == Some(fetched.quota.deep_view())
            &&& step matches RefreshStep::SaveThenSucceed { quota, plan_changed }
                && quota.deep_view() == fetched.quota.deep_view() && plan_taken_over(
                before.account.plan_type,
                after.account.plan_type,
                fetched.plan_type.deep_view(),
                plan_changed,
            )
        },
        Err(e) => if before.phase == RefreshPhase::First && calls_for_new_token(e@) {
            &&& after.phase == RefreshPhase::Forced
            &&& renews_tokens(before.account, after.account, step, RefreshPhase::Forced, now)
        } else {
            &&& after.phase == before.phase
            &&& fails_with(before.account, after.account, step, e@, now)
        },
    }
}

impl QuotaRefresh {
    fn fail(&mut self, message: String, now: i64) -> (r: RefreshStep)
        ensures
            final(self).phase == old(self).phase,
            fails_with(old(self).account, final(self).account, r, message@, now as int),
    {
        let noted = message.clone();
        write_quota_error_at(&mut self.account, noted, now);
        RefreshStep::SaveThenFail { message }
    }

    /// Renews the tokens of an account.
    fn renew(&mut self, now: i64) -> (r: RefreshStep)
        ensures
            final(self).phase == old(self).phase,
            renews_tokens(
                old(self).account,
                final(self).account,
                r,
                old(self).phase,
                now as int,
            ),
    {
        let known: Option<String> = match &self.account.tokens.refresh_token {
            Some(token) => Some(token.clone()),
            None => None,
        };
        match known {
            Some(refresh_token) => RefreshStep::RefreshTokens {
                refresh_token,
                id_token: self.account.tokens.id_token.clone(),
                reason: reason_text(self.phase),
            },
            None => {
                let mut message = reason_text(self.phase);
                message.append("，且账号缺少 refresh_token");
                self.fail(message, now)
            },
        }
    }

    /// Begins a refresh of the quota of an account that was looked up. `token_expired` says whether
    /// its access token ran out.
    pub fn begin(
        account_id: &str,
        loaded: Option<CodexAccount>,
        token_expired: bool,
        now: i64,
    ) -> (r: Result<(QuotaRefresh, RefreshStep), String>)
        ensures
            match (loaded, r) {
                (None, Err(message)) => message@ == "账号不存在: "@ + account_id@,
                (Some(account), Ok((refresh, step))) => if account.api_key_auth {
                    &&& step is AskApiKey
                    &&& refresh.account == account
                    &&& refresh.phase == RefreshPhase::First
                } else if token_expired {
                    &&& refresh.phase == RefreshPhase::Expired
                    &&& renews_tokens(
                        account,
                        refresh.account,
                        step,
                        RefreshPhase::Expired,
                        now as int,
                    )
                } else {
                    &&& step is Fetch
                    &&& refresh.account == account
                    &&& refresh.phase == RefreshPhase::First
                },
                _ => false,
            },
    {
        let account = match loaded {
            Some(account) => account,
            None => {
                let mut message = "账号不存在: ".to_owned();
                message.append(account_id);
                return Err(message);
            },
        };
        if account.api_key_auth {
            return Ok((
                QuotaRefresh { account, phase: RefreshPhase::First },
                RefreshStep::AskApiKey,
            ));
        }
        if token_expired {
            let mut refresh = QuotaRefresh { account, phase: RefreshPhase::Expired };
            let step = refresh.renew(now);
            return Ok((refresh, step));
        }
        Ok((QuotaRefresh { account, phase: RefreshPhase::First }, RefreshStep::Fetch))
    }

    /// Takes the new tokens, or why there are none. `plan` is the plan that the new tokens name, as
    /// far as they could be read.
    pub fn on_tokens(
        &mut self,
        reply: Result<CodexTokens, String>,
        plan: Option<Option<String>>,
        now: i64,
    ) -> (r: RefreshStep)
        ensures
            tokens_taken(*old(self), *final(self), r, reply, plan, now as int),
    {
        match reply {
            Err(e) => {
                let mut message = reason_text(self.phase);
                message.append("，刷新 Token 失败: ");
                message.append(e.as_str());
                self.fail(message, now)
            },
            Ok(tokens) => {
                self.account.tokens = tokens;
                self.phase =
                match self.phase {
                    RefreshPhase::Expired => RefreshPhase::First,
                    _ => RefreshPhase::Retry,
                };
                let plan_changed = match plan {
                    Some(named) => sync_plan_type_from_token(&mut self.account, named),
                    None => false,
                };
                RefreshStep::SaveThenFetch { plan_changed }
            },
        }
    }

    /// Takes the quota, or why there is none. A service that refuses the tokens is asked once more,
    /// with new tokens.
    pub fn on_quota(&mut self, reply: Result<FetchQuotaResult, String>, now: i64) -> (r: RefreshStep)
        ensures
            quota_taken(*old(self), *final(self), r, reply, now as int),
    {
        match reply {
            Ok(fetched) => {
                let plan_changed = sync_plan_type_from_token(
                    &mut self.account,
                    fetched.plan_type,
                );
                self.account.quota = Some(fetched.quota.clone());
                self.account.quota_error = None;
                self.account.usage_updated_at = Some(now);
                RefreshStep::SaveThenSucceed { quota: fetched.quota, plan_changed }
            },
            Err(e) => {
                let first = match self.phase {
                    RefreshPhase::First => true,
                    _ => false,
                };
                if first && should_force_refresh_token(e.as_str()) {
                    self.phase = RefreshPhase::Forced;
                    self.renew(now)
                } else {
                    self.fail(e, now)
                }
            },
        }
    }
}

/// Whether an account that is let in by an API key has taken its quota, or why there is none, as it
/// should. A key whose billing knows no limit loses the quota that it had.
pub open spec fn key_quota_taken(
    before: CodexAccount,
    after: CodexAccount,
    step: RefreshStep,
    outcome: Result<CodexQuota, String>,
    now: i64,
) -> bool {
    match outcome {
        Ok(quota) => {
            &&& after == (CodexAccount {
                quota: after.quota,
                quota_error: None,
                usage_updated_at: Some(now),
                ..before
            })
            &&& after.quota.deep_view() == Some(quota.deep_view())
            &&& step matches RefreshStep::SaveThenSucceed { quota: told, plan_changed }
                && told.deep_view() == quota.deep_view() && !plan_changed
        },
        Err(e) => {
            &&& after == (CodexAccount {
                quota: if holds(e@, "无限 Key 额度"@) {
                    None
                } else {
                    before.quota
                },
                quota_error: after.quota_error,
                usage_updated_at: Some(now),
                ..before
            })
            &&& after.quota_error matches Some(info) && is_error_info(info, e@, now as int)
            &&& step matches RefreshStep::SaveThenFail { message } && message@ == e@
        },
    }
}

/// Notes down in an account that is let in by an API key what came of asking for its quota. A key
/// whose billing knows no limit loses the quota that it had.
pub fn refresh_api_key_account_quota(
    account: &mut CodexAccount,
    outcome: Result<CodexQuota, String>,
    now: i64,
) -> (r: RefreshStep)
    ensures
        key_quota_taken(*old(account), *final(account), r, outcome, now),
{
    match outcome {
        Ok(quota) => {
            account.quota = Some(quota.clone());
            account.quota_error = None;
            account.usage_updated_at = Some(now);
            RefreshStep::SaveThenSucceed { quota, plan_changed: false }
        },
        Err(e) => {
            write_quota_error_at(account, e.clone(), now);
            let chars = chars_of(e.as_str());
            if contains(&chars, "无限 Key 额度") {
                account.quota = None;
            }
            account.usage_updated_at = Some(now);
            RefreshStep::SaveThenFail { message: e }
        },
    }
}

/// What follows a step once its account was saved, or could not be: the refresh goes on with another
/// step, or it comes to an end with a quota or an error.
#[derive(Debug, PartialEq)]
pub enum AfterSave {
    GoOn(RefreshStep),
    End(Result<CodexQuota, String>),
}

/// What follows a step once its account was saved. A refresh that failed tells why, whether or not
/// that could be saved; any other fails where its account could not be saved. A step that saves nothing
/// is yet to be done.
pub fn after_save(step: RefreshStep, saved: Result<(), String>) -> (r: AfterSave)
    ensures
        match step {
            RefreshStep::SaveThenFail { message } => r matches AfterSave::End(Err(e)) && e@
                == message@,
            RefreshStep::SaveThenSucceed { quota, .. } => match saved {
                Ok(_) => r matches AfterSave::End(Ok(q)) && q == quota,
                Err(e) => r matches AfterSave::End(Err(m)) && m@ == e@,
            },
            RefreshStep::SaveThenFetch { .. } => match saved {
                Ok(_) => r matches AfterSave::GoOn(next) && next is Fetch,
                Err(e) => r matches AfterSave::End(Err(m)) && m@ == e@,
            },
            _ => r == AfterSave::GoOn(step),
        },
{
    match step {
        RefreshStep::SaveThenFail { message } => AfterSave::End(Err(message)),
        RefreshStep::SaveThenSucceed { quota, .. } => match saved {
            Ok(_) => AfterSave::End(Ok(quota)),
            Err(e) => AfterSave::End(Err(e)),
        },
        RefreshStep::SaveThenFetch { .. } => match saved {
            Ok(_) => AfterSave::GoOn(RefreshStep::Fetch),
            Err(e) => AfterSave::End(Err(e)),
        },
        other => AfterSave::GoOn(other),
    }
}

// ---------------------------------------------------------------------------------------------
// All accounts
// ---------------------------------------------------------------------------------------------
/// The identifiers of the accounts that take part when all quotas are asked for, in order.
pub open spec fn participants(accounts: Seq<CodexAccount>, now: int) -> Seq<Seq<char>>
    decreases accounts.len(),
{
    if accounts.len() == 0 {
        Seq::empty()
    } else {
        let before = participants(accounts.drop_last(), now);
        if takes_part(accounts.last(), now) {
            before.push(accounts.last().id@)
        } else {
            before
        }
    }
}

/// The identifiers of the accounts that take part when all quotas are asked for, in order.
pub fn accounts_to_refresh(accounts: &Vec<CodexAccount>, now: i64) -> (r: Vec<String>)
    ensures
        r.deep_view() == participants(accounts@, now as int),
{
    let mut ids: Vec<String> = Vec::new();
    let mut i: usize = 0;
    proof {
        assert(ids.deep_view() =~= participants(accounts@.take(0), now as int));
    }
    while i < accounts.len()
        invariant
            i <= accounts@.len(),
            ids.deep_view() == participants(accounts@.take(i as int), now as int),
        decreases accounts@.len() - i,
    {
        let ghost before = ids.deep_view();
        proof {
            assert(accounts@.take(i + 1).drop_last() =~= accounts@.take(i as int));
        }
        if should_refresh_account_in_batch(&accounts[i], now) {
            ids.push(accounts[i].id.clone());
            proof {
                assert(ids.deep_view() =~= before.push(accounts@[i as int].id@));
            }
        }
        i += 1;
    }
    proof {
        assert(accounts@.take(i as int) =~= accounts@);
    }
    ids
}

/// The results of some refreshes, or the first error that kept one from being made.
pub open spec fn all_results<A>(results: Seq<Result<A, String>>) -> Result<Seq<A>, String>
    decreases results.len(),
{
    if results.len() == 0 {
        Ok(Seq::empty())
    } else {
        match (all_results(results.drop_last()), results.last()) {
            (Err(e), _) => Err(e),
            (Ok(_), Err(e)) => Err(e),
            (Ok(before), Ok(item)) => Ok(before.push(item)),
        }
    }
}

proof fn lemma_results_error<A>(results: Seq<Result<A, String>>, n: int)
    requires
        0 <= n <= results.len(),
        all_results(results.take(n)) is Err,
    ensures
        all_results(results) == all_results(results.take(n)),
    decreases results.len(),
{
    if n < results.len() {
        assert(results.drop_last().take(n) =~= results.take(n));
        lemma_results_error(results.drop_last(), n);
    } else {
        assert(results.take(n) =~= results);
    }
}

/// What came of bringing the quotas of all accounts up to date, in the order of the accounts. The
/// first refresh that could not even be begun is an error.
pub fn refresh_all_quotas(
    results: Vec<Result<(String, Result<CodexQuota, String>), String>>,
) -> (r: Result<Vec<(String, Result<CodexQuota, String>)>, String>)
    ensures
        match (all_results(results@), r) {
            (Ok(list), Ok(done)) => done@ == list,
            (Err(e), Err(message)) => message@ == e@,
            _ => false,
        },
{
    let ghost all = results@;
    let mut done: Vec<(String, Result<CodexQuota, String>)> = Vec::new();
    proof {
        assert(all.take(0).len() == 0);
        assert(done@ =~= Seq::empty());
    }
    for result in it: results
        invariant
            it.seq() == all,
            all == results@,
            all_results(all.take(it.index() as int)) == Ok::<
                Seq<(String, Result<CodexQuota, String>)>,
                String,
            >(done@),
    {
        let ghost n = it.index() as int;
        proof {
            assert(all.take(n + 1).drop_last() =~= all.take(n));
            assert(all.take(n + 1).last() == result);
        }
        match result {
            Ok(item) => {
                done.push(item);
            },
            Err(e) => {
                proof {
                    lemma_results_error(all, n + 1);
                }
                return Err(e);
            },
        }
    }
    proof {
        assert(all.take(all.len() as int) =~= all);
    }
    Ok(done)
}

// ---------------------------------------------------------------------------------------------
// Laws
// ---------------------------------------------------------------------------------------------
/// A service that refuses the tokens is answered once: the tokens are renewed, the quota is asked for
/// once more, and whatever comes then is the end.
pub proof fn refusals_are_answered_once(
    asked: QuotaRefresh,
    refused: QuotaRefresh,
    renewed: QuotaRefresh,
    ended: QuotaRefresh,
    steps: (RefreshStep, RefreshStep, RefreshStep),
    first: Result<FetchQuotaResult, String>,
    tokens: Result<CodexTokens, String>,
    plan: Option<Option<String>>,
    second: Result<FetchQuotaResult, String>,
    times: (int, int, int),
)
    requires
        quota_taken(asked, refused, steps.0, first, times.0),
        steps.0 is RefreshTokens,
        tokens_taken(refused, renewed, steps.1, tokens, plan, times.1),
        quota_taken(renewed, ended, steps.2, second, times.2),
    ensures
        asked.phase == RefreshPhase::First && refused.phase == RefreshPhase::Forced,
        tokens is Err ==> steps.1 is SaveThenFail,
        tokens is Ok ==> steps.1 is SaveThenFetch && renewed.phase == RefreshPhase::Retry && (
        steps.2 is SaveThenSucceed || steps.2 is SaveThenFail),
{
}

/// A quota that was had clears the error that was noted down before, and is kept with the time at
/// which it was had.
pub proof fn successes_clear_errors(
    before: QuotaRefresh,
    after: QuotaRefresh,
    step: RefreshStep,
    fetched: FetchQuotaResult,
    now: i64,
)
    requires
        quota_taken(before, after, step, Ok(fetched), now as int),
    ensures
        after.account.quota_error is None,
        after.account.quota.deep_view() == Some(fetched.quota.deep_view()),
        after.account.usage_updated_at == Some(now),
        after.account.tokens == before.account.tokens,
{
}

/// Whatever a refresh fails with is noted down in the account, with the quota that was known before
/// left as it was.
pub proof fn failures_are_noted(
    before: CodexAccount,
    after: CodexAccount,
    step: RefreshStep,
    message: Seq<char>,
    now: int,
)
    requires
        fails_with(before, after, step, message, now),
    ensures
        after.quota_error matches Some(info) && info.message@ == message && info.timestamp == now,
        after.quota == before.quota,
        after.usage_updated_at == before.usage_updated_at,
        after.tokens == before.tokens,
        step matches RefreshStep::SaveThenFail { message: told } && told@ == message,
{
}

/// A key whose billing turns out to know no limit loses the quota that was known before, and why is
/// noted down.
pub proof fn unlimited_keys_lose_their_quota(
    before: CodexAccount,
    after: CodexAccount,
    step: RefreshStep,
    error: String,
    now: i64,
)
    requires
        error@ == unlimited_message(),
        key_quota_taken(before, after, step, Err(error), now),
    ensures
        after.quota is None,
        after.quota_error matches Some(info) && info.message@ == unlimited_message(),
{
    reveal_strlit("第三方 API Key 接口返回的是无限 Key 额度，不是真实订阅套餐额度；请配置控制台登录信息或 Token 后刷新。");
    reveal_strlit("无限 Key 额度");
    let part = "无限 Key 额度"@;
    assert(unlimited_message().subrange(18, 27) =~= part);
    assert(stands_at(unlimited_message(), part, 18));
}

/// Every account takes part that is not let in by an API key. Of those that are, one without a base
/// address never does, and one that was asked for takes part again after 15 minutes and not before.
pub proof fn api_keys_are_spared(account: CodexAccount, now: int)
    ensures
        !account.api_key_auth ==> takes_part(account, now),
        account.api_key_auth ==> match account.api_base_url {
            Some(url) if !is_blank(url@) => match account.usage_updated_at {
                Some(t) => takes_part(account, now) <==> t + 900 <= now,
                None => takes_part(account, now),
            },
            _ => !takes_part(account, now),
        },
{
}

/// The results of a batch keep the order of the accounts and none is lost, unless one could not be
/// begun: then the first such error is told.
pub proof fn batches_keep_their_order<A>(results: Seq<Result<A, String>>)
    ensures
        match all_results(results) {
            Ok(list) => list.len() == results.len() && forall|i: int|
                0 <= i < list.len() ==> results[i] == Ok::<A, String>(#[trigger] list[i]),
            Err(e) => exists|i: int|
                0 <= i < results.len() && #[trigger] results[i] == Err::<A, String>(e) && forall|
                    j: int,
                |
                    0 <= j < i ==> #[trigger] results[j] is Ok,
        },
    decreases results.len(),
{
    if results.len() > 0 {
        let before = results.drop_last();
        batches_keep_their_order(before);
        match all_results(before) {
            Ok(list) => {
                if let Ok(item) = results.last() {
                    let whole = all_results(results)->Ok_0;
                    assert forall|i: int| 0 <= i < whole.len() implies results[i] == Ok::<
                        A,
                        String,
                    >(#[trigger] whole[i]) by {
                        if i < list.len() {
                            assert(whole[i] == list[i]);
                            assert(results[i] == before[i]);
                        }
                    }
                } else {
                    let n = results.len() - 1;
                    assert(results[n] is Err);
                    assert forall|j: int| 0 <= j < n implies #[trigger] results[j] is Ok by {
                        assert(before[j] == Ok::<A, String>(list[j]));
                    }
                }
            },
            Err(e) => {
                let i = choose|i: int|
                    0 <= i < before.len() && #[trigger] before[i] == Err::<A, String>(e) && forall|
                        j: int,
                    |
                        0 <= j < i ==> #[trigger] before[j] is Ok;
                assert(results[i] == Err::<A, String>(e));
                assert forall|j: int| 0 <= j < i implies #[trigger] results[j] is Ok by {
                    assert(before[j] is Ok);
                }
            },
        }
    }
}

/// Tokens are renewed with the refresh token and the identity token that the account has, and the reason
/// is told; an account without a refresh token fails with that reason.
pub proof fn tokens_are_renewed_with_their_own(
    before: CodexAccount,
    after: CodexAccount,
    step: RefreshStep,
    phase: RefreshPhase,
    now: int,
)
    requires
        renews_tokens(before, after, step, phase, now),
    ensures
        ({
            let why = if phase == RefreshPhase::Expired {
                "Token 已过期"@
            } else {
                "配额接口返回 Token 失效"@
            };
            &&& before.tokens.refresh_token matches Some(token) ==> after == before && (
            step matches RefreshStep::RefreshTokens { refresh_token, id_token, reason: told }
                && refresh_token@ == token@ && id_token@ == before.tokens.id_token@ && told@ == why)
            &&& before.tokens.refresh_token is None ==> {
                &&& step matches RefreshStep::SaveThenFail { message } && message@ == why
                    + "，且账号缺少 refresh_token"@
                &&& after.quota_error matches Some(info) && info.message@ == why
                    + "，且账号缺少 refresh_token"@
                &&& after.tokens == before.tokens && after.quota == before.quota
            }
        }),
{
}

/// Whether two accounts are the same account: who it is, how it is let in, and where.
pub open spec fn same_account(a: CodexAccount, b: CodexAccount) -> bool {
    &&& a.id == b.id
    &&& a.email == b.email
    &&& a.api_key_auth == b.api_key_auth
    &&& a.account_id == b.account_id
    &&& a.openai_api_key == b.openai_api_key
    &&& a.api_base_url == b.api_base_url
    &&& a.api_console_token == b.api_console_token
}

/// New tokens are taken over, with the plan that they name, and the quota is asked for next: for the
/// first time after tokens that ran out, and once more after tokens that were refused. Where there are
/// none, the refresh fails, and the old tokens stay.
pub proof fn new_tokens_are_taken_over(
    before: QuotaRefresh,
    after: QuotaRefresh,
    step: RefreshStep,
    reply: Result<CodexTokens, String>,
    plan: Option<Option<String>>,
    name: Seq<char>,
    now: int,
)
    requires
        tokens_taken(before, after, step, reply, plan, now),
    ensures
        same_account(before.account, after.account),
        after.account.quota == before.account.quota,
        after.account.usage_updated_at == before.account.usage_updated_at,
        reply matches Ok(tokens) ==> {
            &&& after.account.tokens == tokens
            &&& after.account.quota_error == before.account.quota_error
            &&& step is SaveThenFetch
            &&& before.phase == RefreshPhase::Expired ==> after.phase == RefreshPhase::First
            &&& before.phase == RefreshPhase::Forced ==> after.phase == RefreshPhase::Retry
            &&& (plan matches Some(named) && named.deep_view() == Some(name)) ==> {
                &&& after.account.plan_type.deep_view() == Some(name)
                &&& step matches RefreshStep::SaveThenFetch { plan_changed } && (plan_changed
                    <==> before.account.plan_type.deep_view() != Some(name))
            }
            &&& plan is None ==> after.account.plan_type == before.account.plan_type && (
            step matches RefreshStep::SaveThenFetch { plan_changed } && !plan_changed)
        },
        reply matches Err(e) ==> {
            &&& after.account.tokens == before.account.tokens
            &&& before.phase == RefreshPhase::Expired ==> (
            step matches RefreshStep::SaveThenFail { message } && message@ == "Token 已过期"@
                + "，刷新 Token 失败: "@ + e@)
            &&& before.phase == RefreshPhase::Forced ==> (
            step matches RefreshStep::SaveThenFail { message } && message@
                == "配额接口返回 Token 失效"@ + "，刷新 Token 失败: "@ + e@)
            &&& step matches RefreshStep::SaveThenFail { message } && (
            after.account.quota_error matches Some(info) && info.message@ == message@)
        },
{
}

/// A quota is taken over with the plan that the reply names. An error is the end, unless it calls for new
/// tokens and none were asked for yet: then they are renewed, once.
pub proof fn quotas_are_taken_over(
    before: QuotaRefresh,
    after: QuotaRefresh,
    step: RefreshStep,
    reply: Result<FetchQuotaResult, String>,
    name: Seq<char>,
    now: i64,
)
    requires
        quota_taken(before, after, step, reply, now as int),
    ensures
        same_account(before.account, after.account),
        after.account.tokens == before.account.tokens,
        reply matches Ok(fetched) ==> {
            &&& after.phase == before.phase
            &&& after.account.quota.deep_view() == Some(fetched.quota.deep_view())
            &&& after.account.usage_updated_at == Some(now)
            &&& step matches RefreshStep::SaveThenSucceed { quota, plan_changed }
                && quota.deep_view() == fetched.quota.deep_view() && (fetched.plan_type.deep_view()
                == Some(name) ==> (plan_changed <==> before.account.plan_type.deep_view() != Some(
                name,
            )) && after.account.plan_type.deep_view() == Some(name)) && (fetched.plan_type is None
                ==> !plan_changed && after.account.plan_type == before.account.plan_type)
        },
        reply matches Err(e) ==> {
            let refused = calls_for_new_token(e@);
            &&& after.account.quota == before.account.quota
            &&& after.account.usage_updated_at == before.account.usage_updated_at
            &&& after.account.plan_type == before.account.plan_type
            &&& before.phase == RefreshPhase::First && refused ==> after.phase
                == RefreshPhase::Forced && (before.account.tokens.refresh_token is Some
                <==> step is RefreshTokens)
            &&& before.phase != RefreshPhase::First || !refused ==> {
                &&& step matches RefreshStep::SaveThenFail { message } && message@ == e@
                &&& after.account.quota_error matches Some(info) && info.message@ == e@
                    && info.timestamp == now
            }
        },
{
}

/// An account that is let in by an API key takes over the quota that was had and forgets the error
/// before it; an error is noted down, and the quota is kept unless the error says that the key knows no
/// limit. Either way it is noted down when the quota was asked for.
pub proof fn key_quotas_are_taken_over(
    before: CodexAccount,
    after: CodexAccount,
    step: RefreshStep,
    outcome: Result<CodexQuota, String>,
    now: i64,
)
    requires
        key_quota_taken(before, after, step, outcome, now),
    ensures
        same_account(before, after),
        after.tokens == before.tokens,
        after.plan_type == before.plan_type,
        after.usage_updated_at == Some(now),
        outcome matches Ok(quota) ==> {
            &&& after.quota.deep_view() == Some(quota.deep_view())
            &&& after.quota_error is None
            &&& step matches RefreshStep::SaveThenSucceed { quota: told, plan_changed }
                && told.deep_view() == quota.deep_view() && !plan_changed
        },
        outcome matches Err(e) ==> {
            &&& holds(e@, "无限 Key 额度"@) ==> after.quota is None
            &&& !holds(e@, "无限 Key 额度"@) ==> after.quota == before.quota
            &&& after.quota_error matches Some(info) && info.message@ == e@ && info.timestamp == now
            &&& step matches RefreshStep::SaveThenFail { message } && message@ == e@
        },
{
}

/// The accounts that are asked for are those that take part, in their order, by their identifiers.
pub proof fn participants_keep_their_order(accounts: Seq<CodexAccount>, now: int)
    ensures
        participants(accounts, now) == accounts.filter(
            |a: CodexAccount| takes_part(a, now),
        ).map_values(|a: CodexAccount| a.id@),
    decreases accounts.len(),
{
    reveal(Seq::filter);
    let keep = |a: CodexAccount| takes_part(a, now);
    let name = |a: CodexAccount| a.id@;
    if accounts.len() > 0 {
        let before = accounts.drop_last();
        participants_keep_their_order(before, now);
        if keep(accounts.last()) {
            assert(accounts.filter(keep).map_values(name) =~= before.filter(keep).map_values(
                name,
            ).push(name(accounts.last())));
        } else {
            assert(accounts.filter(keep) =~= before.filter(keep));
        }
    } else {
        assert(accounts.filter(keep).map_values(name) =~= participants(accounts, now));
    }
}

} // verus!
