//! Quotas: how much of what an account may use is left.
use vstd::prelude::*;

use crate::clock::now_timestamp;
use crate::errors::{
    build_usage_error, extract_error_code_from_message, has_code, is_code_in, usage_error,
};
use crate::json::{Json, JsonModel};
use crate::json_text::{json_read, parse_json};
use crate::text::{blank, is_blank, same_text};

verus! {

// ---------------------------------------------------------------------------------------------
// Quotas
// ---------------------------------------------------------------------------------------------
/// The quota of an account: what is left of it by the hour and by the week, in percent, when that
/// begins anew, and the reply that it was read from.
#[derive(Debug, PartialEq)]
pub struct CodexQuota {
    pub hourly_percentage: i32,
    pub hourly_reset_time: Option<i64>,
    pub hourly_window_minutes: Option<i64>,
    pub hourly_window_present: Option<bool>,
    pub weekly_percentage: i32,
    pub weekly_reset_time: Option<i64>,
    pub weekly_window_minutes: Option<i64>,
    pub weekly_window_present: Option<bool>,
    pub raw_data: Option<Json>,
}

/// What a quota is.
#[verifier::ext_equal]
pub struct QuotaModel {
    pub hourly_percentage: i32,
    pub hourly_reset_time: Option<i64>,
    pub hourly_window_minutes: Option<i64>,
    pub hourly_window_present: Option<bool>,
    pub weekly_percentage: i32,
    pub weekly_reset_time: Option<i64>,
    pub weekly_window_minutes: Option<i64>,
    pub weekly_window_present: Option<bool>,
    pub raw_data: Option<JsonModel>,
}

impl DeepView for CodexQuota {
    type V = QuotaModel;

    open spec fn deep_view(&self) -> QuotaModel {
        QuotaModel {
            hourly_percentage: self.hourly_percentage,
            hourly_reset_time: self.hourly_reset_time,
            hourly_window_minutes: self.hourly_window_minutes,
            hourly_window_present: self.hourly_window_present,
            weekly_percentage: self.weekly_percentage,
            weekly_reset_time: self.weekly_reset_time,
            weekly_window_minutes: self.weekly_window_minutes,
            weekly_window_present: self.weekly_window_present,
            raw_data: self.raw_data.deep_view(),
        }
    }
}

impl Clone for CodexQuota {
    fn clone(&self) -> (r: CodexQuota)
        ensures
            r.deep_view() == self.deep_view(),
    {
        CodexQuota {
            hourly_percentage: self.hourly_percentage,
            hourly_reset_time: self.hourly_reset_time,
            hourly_window_minutes: self.hourly_window_minutes,
            hourly_window_present: self.hourly_window_present,
            weekly_percentage: self.weekly_percentage,
            weekly_reset_time: self.weekly_reset_time,
            weekly_window_minutes: self.weekly_window_minutes,
            weekly_window_present: self.weekly_window_present,
            raw_data: match &self.raw_data {
                Some(raw) => Some(raw.clone()),
                None => None,
            },
        }
    }
}

/// The quota of an account, and the plan that it is on, where the reply says so.
#[derive(Debug, PartialEq)]
pub struct FetchQuotaResult {
    pub quota: CodexQuota,
    pub plan_type: Option<String>,
}

/// What came of asking for a quota.
#[verifier::ext_equal]
pub struct FetchedModel {
    pub quota: QuotaModel,
    pub plan_type: Option<Seq<char>>,
}

impl DeepView for FetchQuotaResult {
    type V = FetchedModel;

    open spec fn deep_view(&self) -> FetchedModel {
        FetchedModel { quota: self.quota.deep_view(), plan_type: self.plan_type.deep_view() }
    }
}

// ---------------------------------------------------------------------------------------------
// Windows
// ---------------------------------------------------------------------------------------------
/// A window of time in which a limit holds.
#[derive(Debug, Clone, Copy, PartialEq, Eq)]
pub struct WindowInfo {
    pub used_percent: Option<i32>,
    pub limit_window_seconds: Option<i64>,
    pub reset_after_seconds: Option<i64>,
    pub reset_at: Option<i64>,
}

/// The limits of an account.
#[derive(Debug, Clone, Copy, PartialEq, Eq)]
pub struct RateLimitInfo {
    pub allowed: Option<bool>,
    pub limit_reached: Option<bool>,
    pub primary_window: Option<WindowInfo>,
    pub secondary_window: Option<WindowInfo>,
}

/// What the service says of the use of an account.
#[derive(Debug, PartialEq, Eq)]
pub struct UsageResponse {
    pub plan_type: Option<String>,
    pub rate_limit: Option<RateLimitInfo>,
    pub code_review_rate_limit: Option<RateLimitInfo>,
}

/// What is left of a window, in percent. What was used counts from 0 to 100.
pub open spec fn remaining_percentage(window: WindowInfo) -> int {
    match window.used_percent {
        None => 100,
        Some(used) => if used <= 0 {
            100
        } else if used >= 100 {
            0
        } else {
            100 - used
        },
    }
}

/// What is left of a window, in percent.
pub fn normalize_remaining_percentage(window: &WindowInfo) -> (r: i32)
    ensures
        r == remaining_percentage(*window),
{
    match window.used_percent {
        None => 100,
        Some(used) => if used <= 0 {
            100
        } else if used >= 100 {
            0
        } else {
            100 - used
        },
    }
}

/// How many minutes a window lasts, where it lasts any time: the seconds, rounded up.
pub open spec fn window_minutes(window: WindowInfo) -> Option<int> {
    match window.limit_window_seconds {
        Some(seconds) => if seconds <= 0 {
            None
        } else {
            Some((seconds + 59) / 60)
        },
        None => None,
    }
}

/// How many minutes a window lasts, rounded up. The seconds must leave room for the rounding.
pub fn normalize_window_minutes(window: &WindowInfo) -> (r: Option<i64>)
    requires
        window.limit_window_seconds matches Some(seconds) ==> seconds + 59 <= i64::MAX,
    ensures
        match (window_minutes(*window), r) {
            (Some(minutes), Some(m)) => m == minutes,
            (None, None) => true,
            _ => false,
        },
{
    match window.limit_window_seconds {
        Some(seconds) => if seconds <= 0 {
            None
        } else {
            Some((seconds + 59) / 60)
        },
        None => None,
    }
}

/// When a window begins anew: at the time it gives, or else after the seconds that it gives, unless
/// those are negative.
pub open spec fn reset_time(window: WindowInfo, now: int) -> Option<int> {
    match (window.reset_at, window.reset_after_seconds) {
        (Some(t), _) => Some(t as int),
        (None, Some(seconds)) => if seconds < 0 {
            None
        } else {
            Some(now + seconds)
        },
        (None, None) => None,
    }
}

/// When a window begins anew, as seen from a time. The time must leave room for the seconds.
pub fn reset_time_at(window: &WindowInfo, now: i64) -> (r: Option<i64>)
    requires
        reset_time(*window, now as int) matches Some(t) ==> t <= i64::MAX,
    ensures
        match (reset_time(*window, now as int), r) {
            (Some(t), Some(time)) => time == t,
            (None, None) => true,
            _ => false,
        },
{
    match (window.reset_at, window.reset_after_seconds) {
        (Some(t), _) => Some(t),
        (None, Some(seconds)) => if seconds < 0 {
            None
        } else {
            Some(now + seconds)
        },
        (None, None) => None,
    }
}

/// When a window begins anew, as seen from now. The last second that the clock can show must leave
/// room for the seconds.
pub fn normalize_reset_time(window: &WindowInfo) -> (r: Option<i64>)
    requires
        reset_time(*window, 8_210_266_876_799) matches Some(t) ==> t <= i64::MAX,
    ensures
        exists|now: int|
            0 <= now <= 8_210_266_876_799 && match (#[trigger] reset_time(*window, now), r) {
                (Some(t), Some(time)) => time == t,
                (None, None) => true,
                _ => false,
            },
{
    let now: i64 = now_timestamp();
    reset_time_at(window, now)
}

/// Whether the times in a window can be reckoned with.
pub open spec fn can_reckon(window: Option<WindowInfo>, now: int) -> bool {
    match window {
        Some(w) => {
            &&& w.limit_window_seconds matches Some(seconds) ==> seconds + 59 <= i64::MAX
            &&& reset_time(w, now) matches Some(t) ==> t <= i64::MAX
        },
        None => true,
    }
}

/// Whether the times in the windows of an account can be reckoned with.
pub open spec fn can_reckon_usage(usage: UsageResponse, now: int) -> bool {
    can_reckon(primary_window(usage), now) && can_reckon(secondary_window(usage), now)
}

/// The window by the hour.
pub open spec fn primary_window(usage: UsageResponse) -> Option<WindowInfo> {
    match usage.rate_limit {
        Some(limit) => limit.primary_window,
        None => None,
    }
}

/// The window by the week.
pub open spec fn secondary_window(usage: UsageResponse) -> Option<WindowInfo> {
    match usage.rate_limit {
        Some(limit) => limit.secondary_window,
        None => None,
    }
}

/// What is left of a window: its percentage, when it begins anew, and how many minutes it lasts. A
/// window that is missing is whole.
pub open spec fn window_state(window: Option<WindowInfo>, now: int) -> (int, Option<int>, Option<
    int,
>) {
    match window {
        Some(w) => (remaining_percentage(w), reset_time(w, now), window_minutes(w)),
        None => (100, None, None),
    }
}

/// A whole number that fits in 64 bits, where there is one.
pub open spec fn fitted(n: Option<int>) -> Option<i64> {
    match n {
        Some(n) => Some(n as i64),
        None => None,
    }
}

/// What was read from a reply, where it is JSON.
pub open spec fn raw_reply(body: Seq<char>) -> Option<JsonModel> {
    match json_read(body) {
        Ok(j) => Some(j),
        Err(_) => None,
    }
}

/// The quota that a reply on the use of an account gives.
pub open spec fn quota_of_usage(usage: UsageResponse, body: Seq<char>, now: int) -> QuotaModel {
    let hourly = window_state(primary_window(usage), now);
    let weekly = window_state(secondary_window(usage), now);
    QuotaModel {
        hourly_percentage: hourly.0 as i32,
        hourly_reset_time: fitted(hourly.1),
        hourly_window_minutes: fitted(hourly.2),
        hourly_window_present: Some(primary_window(usage) is Some),
        weekly_percentage: weekly.0 as i32,
        weekly_reset_time: fitted(weekly.1),
        weekly_window_minutes: fitted(weekly.2),
        weekly_window_present: Some(secondary_window(usage) is Some),
        raw_data: raw_reply(body),
    }
}

fn read_window(window: Option<WindowInfo>, now: i64) -> (r: (i32, Option<i64>, Option<i64>))
    requires
        can_reckon(window, now as int),
    ensures
        r.0 == window_state(window, now as int).0,
        r.1 == fitted(window_state(window, now as int).1),
        r.2 == fitted(window_state(window, now as int).2),
{
    match window {
        Some(w) => (
            normalize_remaining_percentage(&w),
            reset_time_at(&w, now),
            normalize_window_minutes(&w),
        ),
        None => (100, None, None),
    }
}

/// The quota that a reply on the use of an account gives, as seen from a time.
pub fn quota_from_usage_at(usage: &UsageResponse, raw_body: &str, now: i64) -> (r: CodexQuota)
    requires
        can_reckon_usage(*usage, now as int),
    ensures
        r.deep_view() == quota_of_usage(*usage, raw_body@, now as int),
{
    let primary: Option<WindowInfo> = match &usage.rate_limit {
        Some(limit) => limit.primary_window,
        None => None,
    };
    let secondary: Option<WindowInfo> = match &usage.rate_limit {
        Some(limit) => limit.secondary_window,
        None => None,
    };
    let hourly: (i32, Option<i64>, Option<i64>) = read_window(primary, now);
    let weekly: (i32, Option<i64>, Option<i64>) = read_window(secondary, now);
    CodexQuota {
        hourly_percentage: hourly.0,
        hourly_reset_time: hourly.1,
        hourly_window_minutes: hourly.2,
        hourly_window_present: Some(primary.is_some()),
        weekly_percentage: weekly.0,
        weekly_reset_time: weekly.1,
        weekly_window_minutes: weekly.2,
        weekly_window_present: Some(secondary.is_some()),
        raw_data: match parse_json(raw_body) {
            Ok(j) => Some(j),
            Err(_) => None,
        },
    }
}

/// The quota that a reply on the use of an account gives, as seen from now.
pub fn parse_quota_from_usage(usage: &UsageResponse, raw_body: &str) -> (r: CodexQuota)
    requires
        can_reckon_usage(*usage, 8_210_266_876_799),
    ensures
        exists|now: int|
            0 <= now <= 8_210_266_876_799 && r.deep_view() == #[trigger] quota_of_usage(
                *usage,
                raw_body@,
                now,
            ),
{
    let now: i64 = now_timestamp();
    let r = quota_from_usage_at(usage, raw_body, now);
    proof {
        assert(r.deep_view() == quota_of_usage(*usage, raw_body@, now as int));
    }
    r
}

/// What came of asking for the use of an account: the quota and the plan, or the message about a
/// reply that is no success or could not be understood. `usage` is the reply as it was understood,
/// or why it could not be, and counts only for a success.
pub fn fetch_quota_at(
    success: bool,
    status: &str,
    body: &str,
    usage: Result<UsageResponse, String>,
    now: i64,
) -> (r: Result<FetchQuotaResult, String>)
    requires
        success ==> (usage matches Ok(u) ==> can_reckon_usage(u, now as int)),
    ensures
        if !success {
            r matches Err(message) && message@ == usage_error(status@, body@)
        } else {
            match usage {
                Err(e) => r matches Err(message) && message@ == "解析 JSON 失败: "@ + e@,
                Ok(u) => r matches Ok(fetched) && fetched.quota.deep_view() == quota_of_usage(
                    u,
                    body@,
                    now as int,
                ) && fetched.plan_type.deep_view() == u.plan_type.deep_view(),
            }
        },
{
    if !success {
        return Err(build_usage_error(status, body));
    }
    match usage {
        Err(e) => {
            let mut message = "解析 JSON 失败: ".to_owned();
            message.append(e.as_str());
            Err(message)
        },
        Ok(u) => {
            let quota = quota_from_usage_at(&u, body, now);
            Ok(FetchQuotaResult { quota, plan_type: u.plan_type })
        },
    }
}

/// What came of asking for the use of an account, as seen from now.
pub fn fetch_quota(
    success: bool,
    status: &str,
    body: &str,
    usage: Result<UsageResponse, String>,
) -> (r: Result<FetchQuotaResult, String>)
    requires
        success ==> (usage matches Ok(u) ==> can_reckon_usage(u, 8_210_266_876_799)),
    ensures
        if !success {
            r matches Err(message) && message@ == usage_error(status@, body@)
        } else {
            match usage {
                Err(e) => r matches Err(message) && message@ == "解析 JSON 失败: "@ + e@,
                Ok(u) => r matches Ok(fetched) && fetched.plan_type.deep_view()
                    == u.plan_type.deep_view() && exists|now: int|
                    0 <= now <= 8_210_266_876_799 && fetched.quota.deep_view()
                        == #[trigger] quota_of_usage(u, body@, now),
            }
        },
{
    let now: i64 = now_timestamp();
    fetch_quota_at(success, status, body, usage, now)
}

/// The account that a request for a quota names: the one that is known, or else the one in the
/// token, unless it is empty.
pub open spec fn named_account(known: Option<Seq<char>>, in_token: Option<Seq<char>>) -> Option<
    Seq<char>,
> {
    let id = match known {
        Some(id) => Some(id),
        None => in_token,
    };
    match id {
        Some(s) if s.len() > 0 => Some(s),
        _ => None,
    }
}

/// The account that a request for a quota names.
pub fn account_id_header(known: Option<&str>, in_token: Option<&str>) -> (r: Option<String>)
    ensures
        r.deep_view() == named_account(known.deep_view(), in_token.deep_view()),
{
    let id: Option<&str> = match known {
        Some(id) => Some(id),
        None => in_token,
    };
    match id {
        Some(s) => if s.is_empty() {
            None
        } else {
            Some(s.to_owned())
        },
        None => None,
    }
}

/// What a request for a quota shows to be let in.
pub fn authorization_header(access_token: &str) -> (r: String)
    ensures
        r@ == "Bearer "@ + access_token@,
{
    let mut out = "Bearer ".to_owned();
    out.append(access_token);
    out
}

// ---------------------------------------------------------------------------------------------
// Accounts
// ---------------------------------------------------------------------------------------------
/// The tokens of an account.
#[derive(Debug, Clone, PartialEq, Eq)]
pub struct CodexTokens {
    pub id_token: String,
    pub access_token: String,
    pub refresh_token: Option<String>,
}

/// Why the quota of an account could not be had.
#[derive(Debug, PartialEq, Eq)]
pub struct CodexQuotaErrorInfo {
    pub code: Option<String>,
    pub message: String,
    pub timestamp: i64,
}

/// An account, as far as its quota goes. `api_key_auth` says whether it is let in by an API key.
#[derive(Debug, PartialEq)]
pub struct CodexAccount {
    pub id: String,
    pub email: String,
    pub api_key_auth: bool,
    pub plan_type: Option<String>,
    pub account_id: Option<String>,
    pub tokens: CodexTokens,
    pub openai_api_key: Option<String>,
    pub api_base_url: Option<String>,
    pub api_console_token: Option<String>,
    pub quota: Option<CodexQuota>,
    pub quota_error: Option<CodexQuotaErrorInfo>,
    pub usage_updated_at: Option<i64>,
}

/// Why a quota could not be had, and when: the message, with the error code in it.
pub open spec fn is_error_info(info: CodexQuotaErrorInfo, message: Seq<char>, now: int) -> bool {
    &&& info.message@ == message
    &&& info.timestamp == now
    &&& match info.code {
        Some(code) => is_code_in(message, code@),
        None => !has_code(message),
    }
}

/// Whether two accounts differ in nothing but why their quota could not be had.
pub open spec fn same_but_error(a: CodexAccount, b: CodexAccount) -> bool {
    b == (CodexAccount { quota_error: b.quota_error, ..a })
}

/// Notes down at a time why the quota of an account could not be had.
pub fn write_quota_error_at(account: &mut CodexAccount, message: String, now: i64)
    ensures
        same_but_error(*old(account), *final(account)),
        final(account).quota_error matches Some(info) && is_error_info(info, message@, now as int),
{
    let code = extract_error_code_from_message(message.as_str());
    account.quota_error = Some(CodexQuotaErrorInfo { code, message, timestamp: now });
}

/// Notes down why the quota of an account could not be had.
pub fn write_quota_error(account: &mut CodexAccount, message: String)
    ensures
        same_but_error(*old(account), *final(account)),
        final(account).quota_error matches Some(info) && 0 <= info.timestamp
            <= 8_210_266_876_799 && is_error_info(info, message@, info.timestamp as int),
{
    let now: i64 = now_timestamp();
    write_quota_error_at(account, message, now);
}

/// Takes over the plan that a token or a reply names, where it names one. Says whether the account
/// was on another plan before.
pub fn sync_plan_type_from_token(account: &mut CodexAccount, plan_type: Option<String>) -> (r: bool)
    ensures
        *final(account) == (CodexAccount { plan_type: final(account).plan_type, ..*old(account) }),
        match plan_type {
            None => !r && *final(account) == *old(account),
            Some(plan) => {
                &&& r == (old(account).plan_type.deep_view() != Some(plan@))
                &&& final(account).plan_type.deep_view() == Some(plan@)
            },
        },
{
    match plan_type {
        None => false,
        Some(plan) => {
            let same = match &account.plan_type {
                Some(known) => same_text(known.as_str(), plan.as_str()),
                None => false,
            };
            if same {
                false
            } else {
                account.plan_type = Some(plan);
                true
            }
        },
    }
}

/// Whether an account takes part when all quotas are asked for: one that is let in by an API key
/// must have a base address, and must not have been asked for in the last 15 minutes.
pub open spec fn takes_part(account: CodexAccount, now: int) -> bool {
    if !account.api_key_auth {
        true
    } else {
        match account.api_base_url {
            Some(url) => !is_blank(url@) && match account.usage_updated_at {
                Some(t) => now - t >= 900,
                None => true,
            },
            None => false,
        }
    }
}

/// Whether an account takes part when all quotas are asked for.
pub fn should_refresh_account_in_batch(account: &CodexAccount, now: i64) -> (r: bool)
    ensures
        r == takes_part(*account, now as int),
{
    if !account.api_key_auth {
        return true;
    }
    let has_url = match &account.api_base_url {
        Some(url) => !blank(url.as_str()),
        None => false,
    };
    if !has_url {
        return false;
    }
    match account.usage_updated_at {
        Some(t) => now as i128 - t as i128 >= 900,
        None => true,
    }
}

// ---------------------------------------------------------------------------------------------
// Laws
// ---------------------------------------------------------------------------------------------
/// What is left is always between nothing and all, and the more was used, the less is left.
pub proof fn percentages_stay_in_range(a: WindowInfo, b: WindowInfo)
    ensures
        0 <= remaining_percentage(a) <= 100,
        (a.used_percent matches Some(x) && b.used_percent matches Some(y) && x <= y)
            ==> remaining_percentage(a) >= remaining_percentage(b),
{
}

/// The minutes of a window cover its seconds, and one minute less would not.
pub proof fn minutes_cover_the_window(window: WindowInfo)
    ensures
        match (window_minutes(window), window.limit_window_seconds) {
            (Some(minutes), Some(seconds)) => 0 < minutes && (minutes - 1) * 60 < seconds
                <= minutes * 60,
            (None, Some(seconds)) => seconds <= 0,
            (None, None) => true,
            (Some(_), None) => false,
        },
{
}

/// A quota that was read from a reply says how much is left in percent from 0 to 100, whatever the
/// reply says, and a window that is missing is whole.
pub proof fn quotas_stay_in_range(usage: UsageResponse, body: Seq<char>, now: int)
    ensures
        0 <= quota_of_usage(usage, body, now).hourly_percentage <= 100,
        0 <= quota_of_usage(usage, body, now).weekly_percentage <= 100,
        primary_window(usage) is None ==> quota_of_usage(usage, body, now).hourly_percentage == 100,
        secondary_window(usage) is None ==> quota_of_usage(usage, body, now).weekly_percentage
            == 100,
{
    if let Some(w) = primary_window(usage) {
        percentages_stay_in_range(w, w);
    }
    if let Some(w) = secondary_window(usage) {
        percentages_stay_in_range(w, w);
    }
}

/// Whether this is what is left of a window at a time: what was used and what is left make up a
/// hundred; it begins anew at the time that it gives, or else so many seconds later as it gives; and
/// its minutes cover its seconds, and one minute less would not. A window that is missing is whole.
pub open spec fn is_left_of(
    window: Option<WindowInfo>,
    now: int,
    percentage: i32,
    reset: Option<i64>,
    minutes: Option<i64>,
    present: Option<bool>,
) -> bool {
    match window {
        Some(w) => {
            &&& present == Some(true)
            &&& w.used_percent matches Some(used) ==> {
                &&& 0 <= used <= 100 ==> percentage + used == 100
                &&& used < 0 ==> percentage == 100
                &&& used > 100 ==> percentage == 0
            }
            &&& w.used_percent is None ==> percentage == 100
            &&& w.reset_at matches Some(t) ==> reset == Some(t)
            &&& w.reset_at is None ==> (w.reset_after_seconds matches Some(s) ==> if s < 0 {
                reset is None
            } else {
                reset matches Some(t) && t - s == now
            })
            &&& w.reset_at is None && w.reset_after_seconds is None ==> reset is None
            &&& w.limit_window_seconds matches Some(s) ==> if s <= 0 {
                minutes is None
            } else {
                minutes matches Some(m) && (m - 1) * 60 < s <= m * 60
            }
            &&& w.limit_window_seconds is None ==> minutes is None
        },
        None => percentage == 100 && reset is None && minutes is None && present == Some(false),
    }
}

/// What a quota says of the hour comes from the primary window alone, and what it says of the week
/// from the secondary window alone: for each, the percentage that was used and the percentage that is
/// left make up a hundred, whatever the other window says, and the time at which it begins anew and
/// its length are its own.
pub proof fn each_window_counts_for_itself(
    usage: UsageResponse,
    limit: RateLimitInfo,
    body: Seq<char>,
    now: int,
)
    requires
        0 <= now,
        can_reckon_usage(usage, now),
    ensures
        ({
            let q = quota_of_usage(usage, body, now);
            &&& usage.rate_limit == Some(limit) ==> {
                &&& is_left_of(
                    limit.primary_window,
                    now,
                    q.hourly_percentage,
                    q.hourly_reset_time,
                    q.hourly_window_minutes,
                    q.hourly_window_present,
                )
                &&& is_left_of(
                    limit.secondary_window,
                    now,
                    q.weekly_percentage,
                    q.weekly_reset_time,
                    q.weekly_window_minutes,
                    q.weekly_window_present,
                )
            }
            &&& usage.rate_limit is None ==> {
                &&& is_left_of(
                    None,
                    now,
                    q.hourly_percentage,
                    q.hourly_reset_time,
                    q.hourly_window_minutes,
                    q.hourly_window_present,
                )
                &&& is_left_of(
                    None,
                    now,
                    q.weekly_percentage,
                    q.weekly_reset_time,
                    q.weekly_window_minutes,
                    q.weekly_window_present,
                )
            }
            &&& json_read(body) matches Ok(j) ==> q.raw_data == Some(j)
            &&& json_read(body) is Err ==> q.raw_data is None
        }),
{
    if let Some(w) = primary_window(usage) {
        minutes_cover_the_window(w);
    }
    if let Some(w) = secondary_window(usage) {
        minutes_cover_the_window(w);
    }
}

/// Two replies with the same secondary window say the same of the week, whatever else they say, and two
/// with the same primary window say the same of the hour.
pub proof fn windows_do_not_mix(
    a: UsageResponse,
    b: UsageResponse,
    x: RateLimitInfo,
    y: RateLimitInfo,
    body: Seq<char>,
    other: Seq<char>,
    now: int,
)
    requires
        a.rate_limit == Some(x),
        b.rate_limit == Some(y),
    ensures
        ({
            let p = quota_of_usage(a, body, now);
            let q = quota_of_usage(b, other, now);
            &&& x.secondary_window == y.secondary_window ==> {
                &&& p.weekly_percentage == q.weekly_percentage
                &&& p.weekly_reset_time == q.weekly_reset_time
                &&& p.weekly_window_minutes == q.weekly_window_minutes
                &&& p.weekly_window_present == q.weekly_window_present
            }
            &&& x.primary_window == y.primary_window ==> {
                &&& p.hourly_percentage == q.hourly_percentage
                &&& p.hourly_reset_time == q.hourly_reset_time
                &&& p.hourly_window_minutes == q.hourly_window_minutes
                &&& p.hourly_window_present == q.hourly_window_present
            }
        }),
{
}

/// A request names the account that is known, and only where none is known the one in the token; it
/// never names an empty one.
pub proof fn known_accounts_are_named(known: Option<Seq<char>>, in_token: Option<Seq<char>>)
    ensures
        known matches Some(id) ==> (id.len() > 0 ==> named_account(known, in_token) == Some(id)),
        known matches Some(id) ==> (id.len() == 0 ==> named_account(known, in_token) is None),
        known is None ==> (in_token matches Some(id) ==> (id.len() > 0 ==> named_account(
            known,
            in_token,
        ) == Some(id))),
        named_account(known, in_token) matches Some(id) ==> id.len() > 0 && (known == Some(id)
            || in_token == Some(id)),
{
}

} // verus!
