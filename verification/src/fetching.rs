//! How the quota of a third party is asked for: which request comes next, and what its reply means.
//!
//! The requests themselves are made elsewhere. A fetch says what to do next, and is told what came
//! of it.
use vstd::prelude::*;

use crate::billing::{is_success, says_success};
use crate::console::{
    billing_roots, billing_urls, build_api_key_billing_url_candidates,
    build_console_root_candidates, console_auth, console_roots,
    derive_console_root_from_endpoint_url, parse_console_auth, root_behind, AuthModel,
    ConsoleAuthState, UrlModel, UrlParts,
};
use crate::json::{as_text, json_get, says, Json, JsonModel};
use crate::quota::{CodexAccount, CodexQuota};
use crate::text::{is_blank, join, joined, trim, trimmed};

verus! {

/// A text without white space at its ends, unless it is missing or empty.
pub open spec fn configured(s: Option<Seq<char>>) -> Option<Seq<char>> {
    match s {
        Some(text) if trimmed(text).len() > 0 => Some(trimmed(text)),
        _ => None,
    }
}

fn read_configured(s: &Option<String>) -> (r: Option<String>)
    ensures
        r.deep_view() == configured(s.deep_view()),
{
    match s {
        Some(text) => {
            let short = trim(text.as_str());
            if short.is_empty() {
                None
            } else {
                Some(short.to_owned())
            }
        },
        None => None,
    }
}

/// What went wrong, all of it; where nothing did, what is said instead.
pub open spec fn all_errors(errors: Seq<Seq<char>>, otherwise: Seq<char>) -> Seq<char> {
    if errors.len() == 0 {
        otherwise
    } else {
        joined(errors, "; "@)
    }
}

fn join_errors(errors: &Vec<String>, otherwise: &str) -> (r: String)
    ensures
        r@ == all_errors(errors.deep_view(), otherwise@),
{
    if errors.len() == 0 {
        otherwise.to_owned()
    } else {
        join(errors, "; ")
    }
}

// ---------------------------------------------------------------------------------------------
// Consoles
// ---------------------------------------------------------------------------------------------
/// A fetch from the console of a third party: what lets one in, the addresses to be tried and the
/// place of the one that is being tried, what went wrong so far, and what is known of the console at
/// that address.
#[derive(Debug, PartialEq)]
pub struct ConsoleFetch {
    pub auth: ConsoleAuthState,
    pub base_url: String,
    pub roots: Vec<String>,
    pub at: usize,
    pub errors: Vec<String>,
    pub status: Json,
    pub subscription_url: String,
}

/// What a fetch from a console has come to.
#[verifier::ext_equal]
pub struct ConsoleModel {
    pub auth: AuthModel,
    pub base_url: Seq<char>,
    pub roots: Seq<Seq<char>>,
    pub at: int,
    pub errors: Seq<Seq<char>>,
    pub status: JsonModel,
    pub subscription_url: Seq<char>,
}

impl DeepView for ConsoleFetch {
    type V = ConsoleModel;

    open spec fn deep_view(&self) -> ConsoleModel {
        ConsoleModel {
            auth: self.auth.deep_view(),
            base_url: self.base_url@,
            roots: self.roots.deep_view(),
            at: self.at as int,
            errors: self.errors.deep_view(),
            status: self.status@,
            subscription_url: self.subscription_url@,
        }
    }
}

/// What to do next in a fetch from a console: nothing, as none is configured; ask for its status; ask
/// for the subscription with a session or with a token; make a quota of the reply; or give up.
#[derive(Debug, PartialEq)]
pub enum ConsoleStep {
    NotConfigured,
    FetchStatus { url: String },
    FetchWithSession { url: String, session_cookie: String, user_id: String },
    FetchWithToken { url: String, token: String },
    BuildQuota { base_url: String, subscription_url: String, status: Json, subscription: Json },
    Failed { message: String },
}

/// What is to be done next in a fetch from a console.
#[verifier::ext_equal]
pub enum ConsoleNext {
    NotConfigured,
    FetchStatus { url: Seq<char> },
    FetchWithSession { url: Seq<char>, session_cookie: Seq<char>, user_id: Seq<char> },
    FetchWithToken { url: Seq<char>, token: Seq<char> },
    BuildQuota {
        base_url: Seq<char>,
        subscription_url: Seq<char>,
        status: JsonModel,
        subscription: JsonModel,
    },
    Failed { message: Seq<char> },
}

impl DeepView for ConsoleStep {
    type V = ConsoleNext;

    open spec fn deep_view(&self) -> ConsoleNext {
        match self {
            ConsoleStep::NotConfigured => ConsoleNext::NotConfigured,
            ConsoleStep::FetchStatus { url } => ConsoleNext::FetchStatus { url: url@ },
            ConsoleStep::FetchWithSession { url, session_cookie, user_id } =>
                ConsoleNext::FetchWithSession {
                url: url@,
                session_cookie: session_cookie@,
                user_id: user_id@,
            },
            ConsoleStep::FetchWithToken { url, token } => ConsoleNext::FetchWithToken {
                url: url@,
                token: token@,
            },
            ConsoleStep::BuildQuota { base_url, subscription_url, status, subscription } =>
                ConsoleNext::BuildQuota {
                base_url: base_url@,
                subscription_url: subscription_url@,
                status: status@,
                subscription: subscription@,
            },
            ConsoleStep::Failed { message } => ConsoleNext::Failed { message: message@ },
        }
    }
}

/// The step that tries the address that is next, or gives up where all were tried.
pub open spec fn try_console(m: ConsoleModel) -> ConsoleNext {
    if 0 <= m.at < m.roots.len() {
        ConsoleNext::FetchStatus { url: m.roots[m.at] + "/api/status"@ }
    } else {
        ConsoleNext::Failed {
            message: "第三方控制台订阅额度读取失败: "@ + all_errors(
                m.errors,
                "没有可用的订阅接口"@,
            ),
        }
    }
}

/// The fetch after an address was of no use.
pub open spec fn next_console(m: ConsoleModel) -> ConsoleModel {
    ConsoleModel {
        at: if m.at < m.roots.len() {
            m.at + 1
        } else {
            m.at
        },
        ..m
    }
}

/// The fetch after something more went wrong.
pub open spec fn with_console_error(m: ConsoleModel, e: Option<Seq<char>>) -> ConsoleModel {
    match e {
        Some(e) => ConsoleModel { errors: m.errors.push(e), ..m },
        None => m,
    }
}

/// Whether a console is configured: there is a token, or a session together with a user.
pub open spec fn lets_in(auth: AuthModel) -> bool {
    auth.bearer_token is Some || (auth.session_cookie is Some && auth.user_id is Some)
}

/// How a fetch from a console begins.
pub open spec fn console_begun(console_token: Option<Seq<char>>, base_url: Option<Seq<char>>) -> (
    ConsoleModel,
    ConsoleNext,
) {
    let auth = console_auth(console_token);
    let base = match configured(base_url) {
        Some(base) => base,
        None => Seq::empty(),
    };
    let m = ConsoleModel {
        auth,
        base_url: base,
        roots: console_roots(base),
        at: 0,
        errors: Seq::empty(),
        status: JsonModel::Null,
        subscription_url: Seq::empty(),
    };
    let next = if !lets_in(auth) {
        ConsoleNext::NotConfigured
    } else if configured(base_url) is None {
        ConsoleNext::Failed { message: "控制台额度需要第三方 Base URL"@ }
    } else {
        try_console(m)
    };
    (m, next)
}

/// The step that asks for the subscription with a token, or else tries the next address.
pub open spec fn ask_with_token(m: ConsoleModel) -> (ConsoleModel, ConsoleNext) {
    match m.auth.bearer_token {
        Some(token) => (m, ConsoleNext::FetchWithToken { url: m.subscription_url, token }),
        None => (next_console(m), try_console(next_console(m))),
    }
}

/// The step that asks for the subscription, with a session first.
pub open spec fn ask_for_subscription(m: ConsoleModel) -> (ConsoleModel, ConsoleNext) {
    match (m.auth.session_cookie, m.auth.user_id) {
        (Some(session_cookie), Some(user_id)) => (
            m,
            ConsoleNext::FetchWithSession { url: m.subscription_url, session_cookie, user_id },
        ),
        _ => ask_with_token(m),
    }
}

/// The address of the subscription: below the address that the status was answered at in the end.
pub open spec fn subscription_address(root: Seq<char>, answered_at: UrlModel) -> Seq<char> {
    let base = match root_behind(answered_at, "/api/status"@) {
        Some(resolved) => resolved,
        None => root,
    };
    base + "/api/subscription/self"@
}

/// The data in a reply, or else the reply itself.
pub open spec fn data_of(value: JsonModel) -> JsonModel {
    match json_get(value, "data"@) {
        Some(data) => data,
        None => value,
    }
}

/// What follows the reply to a question for the status.
pub open spec fn after_status(
    m: ConsoleModel,
    reply: Result<(JsonModel, UrlModel), Seq<char>>,
) -> (ConsoleModel, ConsoleNext) {
    match reply {
        Err(e) => {
            let next = next_console(with_console_error(m, Some(e)));
            (next, try_console(next))
        },
        Ok((value, answered_at)) => if 0 <= m.at < m.roots.len() {
            ask_for_subscription(
                ConsoleModel {
                    status: data_of(value),
                    subscription_url: subscription_address(m.roots[m.at], answered_at),
                    ..m
                },
            )
        } else {
            (m, try_console(m))
        },
    }
}

/// What a reply on a subscription says went wrong, where it says so.
pub open spec fn subscription_error(url: Seq<char>, reply: Result<JsonModel, Seq<char>>) -> Option<
    Seq<char>,
> {
    match reply {
        Err(e) => Some(e),
        Ok(value) => match as_text(json_get(value, "message"@)) {
            Some(message) => Some(url + " 返回错误: "@ + message),
            None => None,
        },
    }
}

/// The step that makes a quota of a reply.
pub open spec fn build_step(m: ConsoleModel, subscription: JsonModel) -> ConsoleNext {
    ConsoleNext::BuildQuota {
        base_url: m.base_url,
        subscription_url: m.subscription_url,
        status: m.status,
        subscription,
    }
}

/// What follows the reply to a question for the subscription with a session.
pub open spec fn after_session(m: ConsoleModel, reply: Result<JsonModel, Seq<char>>) -> (
    ConsoleModel,
    ConsoleNext,
) {
    match reply {
        Ok(value) if is_success(value) => (m, build_step(m, value)),
        _ => ask_with_token(with_console_error(m, subscription_error(m.subscription_url, reply))),
    }
}

/// What follows the reply to a question for the subscription with a token.
pub open spec fn after_token(m: ConsoleModel, reply: Result<JsonModel, Seq<char>>) -> (
    ConsoleModel,
    ConsoleNext,
) {
    match reply {
        Ok(value) if is_success(value) => (m, build_step(m, value)),
        _ => {
            let next = next_console(
                with_console_error(m, subscription_error(m.subscription_url, reply)),
            );
            (next, try_console(next))
        },
    }
}

/// A reply with JSON.
pub open spec fn reply_model(reply: Result<Json, String>) -> Result<JsonModel, Seq<char>> {
    match reply {
        Ok(value) => Ok(value@),
        Err(e) => Err(e@),
    }
}

/// A reply with JSON, and the address that it came from in the end.
pub open spec fn located_reply_model(reply: Result<(Json, UrlParts), String>) -> Result<
    (JsonModel, UrlModel),
    Seq<char>,
> {
    match reply {
        Ok((value, url)) => Ok((value@, url.deep_view())),
        Err(e) => Err(e@),
    }
}

fn copy_optional(s: &Option<String>) -> (r: Option<String>)
    ensures
        r.deep_view() == s.deep_view(),
{
    match s {
        Some(s) => Some(s.clone()),
        None => None,
    }
}

impl ConsoleFetch {
    /// Begins a fetch from the console that an account has, where it has one.
    pub fn begin(account: &CodexAccount) -> (r: (ConsoleFetch, ConsoleStep))
        ensures
            (r.0.deep_view(), r.1.deep_view()) == console_begun(
                account.api_console_token.deep_view(),
                account.api_base_url.deep_view(),
            ),
    {
        let token: Option<&str> = match &account.api_console_token {
            Some(token) => Some(token.as_str()),
            None => None,
        };
        let auth = parse_console_auth(token);
        let base = read_configured(&account.api_base_url);
        let has_base = base.is_some();
        let base_url = match base {
            Some(base) => base,
            None => String::new(),
        };
        let let_in = auth.bearer_token.is_some() || (auth.session_cookie.is_some()
            && auth.user_id.is_some());
        let roots = build_console_root_candidates(base_url.as_str());
        let fetch = ConsoleFetch {
            auth,
            base_url,
            roots,
            at: 0,
            errors: Vec::new(),
            status: Json::Null,
            subscription_url: String::new(),
        };
        proof {
            assert(fetch.errors.deep_view() =~= Seq::<Seq<char>>::empty());
        }
        let step = if !let_in {
            ConsoleStep::NotConfigured
        } else if !has_base {
            ConsoleStep::Failed { message: "控制台额度需要第三方 Base URL".to_owned() }
        } else {
            fetch.try_next()
        };
        (fetch, step)
    }

    fn try_next(&self) -> (r: ConsoleStep)
        ensures
            r.deep_view() == try_console(self.deep_view()),
    {
        if self.at < self.roots.len() {
            let mut url = self.roots[self.at].clone();
            url.append("/api/status");
            ConsoleStep::FetchStatus { url }
        } else {
            let mut message = "第三方控制台订阅额度读取失败: ".to_owned();
            message.append(join_errors(&self.errors, "没有可用的订阅接口").as_str());
            ConsoleStep::Failed { message }
        }
    }

    fn move_on(&mut self) -> (r: ConsoleStep)
        ensures
            final(self).deep_view() == next_console(old(self).deep_view()),
            r.deep_view() == try_console(next_console(old(self).deep_view())),
    {
        if self.at < self.roots.len() {
            self.at = self.at + 1;
        }
        self.try_next()
    }

    fn note(&mut self, error: Option<String>)
        ensures
            final(self).deep_view() == with_console_error(
                old(self).deep_view(),
                error.deep_view(),
            ),
    {
        if let Some(e) = error {
            let ghost before = self.errors.deep_view();
            let ghost m = e@;
            self.errors.push(e);
            proof {
                assert(self.errors.deep_view() =~= before.push(m));
            }
        }
    }

    fn use_token(&mut self) -> (r: ConsoleStep)
        ensures
            (final(self).deep_view(), r.deep_view()) == ask_with_token(old(self).deep_view()),
    {
        match copy_optional(&self.auth.bearer_token) {
            Some(token) => ConsoleStep::FetchWithToken {
                url: self.subscription_url.clone(),
                token,
            },
            None => self.move_on(),
        }
    }

    /// Takes the reply to a question for the status, with the address that it came from in the end.
    pub fn on_status(&mut self, reply: Result<(Json, UrlParts), String>) -> (r: ConsoleStep)
        ensures
            (final(self).deep_view(), r.deep_view()) == after_status(
                old(self).deep_view(),
                located_reply_model(reply),
            ),
    {
        let (value, answered_at) = match reply {
            Ok((value, answered_at)) => (value, answered_at),
            Err(e) => {
                self.note(Some(e));
                return self.move_on();
            },
        };
        if self.at >= self.roots.len() {
            return self.try_next();
        }
        let data: Option<Json> = match value.get("data") {
            Some(data) => Some(data.clone()),
            None => None,
        };
        self.status =
        match data {
            Some(data) => data,
            None => value,
        };
        let mut url = match derive_console_root_from_endpoint_url(&answered_at, "/api/status") {
            Some(resolved) => resolved,
            None => self.roots[self.at].clone(),
        };
        url.append("/api/subscription/self");
        self.subscription_url = url;
        match (copy_optional(&self.auth.session_cookie), copy_optional(&self.auth.user_id)) {
            (Some(session_cookie), Some(user_id)) => ConsoleStep::FetchWithSession {
                url: self.subscription_url.clone(),
                session_cookie,
                user_id,
            },
            _ => self.use_token(),
        }
    }

    fn build(&self, subscription: Json) -> (r: ConsoleStep)
        ensures
            r.deep_view() == build_step(self.deep_view(), subscription@),
    {
        ConsoleStep::BuildQuota {
            base_url: self.base_url.clone(),
            subscription_url: self.subscription_url.clone(),
            status: self.status.clone(),
            subscription,
        }
    }

    fn error_in(&self, reply: &Result<Json, String>) -> (r: Option<String>)
        ensures
            r.deep_view() == subscription_error(self.subscription_url@, reply_model(*reply)),
    {
        match reply {
            Err(e) => Some(e.clone()),
            Ok(value) => match value.get("message") {
                Some(inner) => match inner.as_str() {
                    Some(text) => {
                        let mut message = self.subscription_url.clone();
                        message.append(" 返回错误: ");
                        message.append(text);
                        Some(message)
                    },
                    None => None,
                },
                None => None,
            },
        }
    }

    /// Takes the reply to a question for the subscription with a session.
    pub fn on_session(&mut self, reply: Result<Json, String>) -> (r: ConsoleStep)
        ensures
            (final(self).deep_view(), r.deep_view()) == after_session(
                old(self).deep_view(),
                reply_model(reply),
            ),
    {
        let error = self.error_in(&reply);
        if let Ok(value) = reply {
            if says_success(&value) {
                return self.build(value);
            }
        }
        self.note(error);
        self.use_token()
    }

    /// Takes the reply to a question for the subscription with a token.
    pub fn on_token(&mut self, reply: Result<Json, String>) -> (r: ConsoleStep)
        ensures
            (final(self).deep_view(), r.deep_view()) == after_token(
                old(self).deep_view(),
                reply_model(reply),
            ),
    {
        let error = self.error_in(&reply);
        if let Ok(value) = reply {
            if says_success(&value) {
                return self.build(value);
            }
        }
        self.note(error);
        self.move_on()
    }
}

// ---------------------------------------------------------------------------------------------
// API keys
// ---------------------------------------------------------------------------------------------
/// A fetch from the billing interface of an API key: the key, the addresses to be tried and the place
/// of those that are being tried, what went wrong so far, and what is known of the subscription.
#[derive(Debug, PartialEq)]
pub struct KeyFetch {
    pub api_key: String,
    pub base_url: String,
    pub candidates: Vec<(String, String)>,
    pub at: usize,
    pub errors: Vec<String>,
    pub subscription: Json,
}

/// What a fetch from the billing interface has come to.
#[verifier::ext_equal]
pub struct KeyModel {
    pub api_key: Seq<char>,
    pub base_url: Seq<char>,
    pub candidates: Seq<(Seq<char>, Seq<char>)>,
    pub at: int,
    pub errors: Seq<Seq<char>>,
    pub subscription: JsonModel,
}

impl DeepView for KeyFetch {
    type V = KeyModel;

    open spec fn deep_view(&self) -> KeyModel {
        KeyModel {
            api_key: self.api_key@,
            base_url: self.base_url@,
            candidates: self.candidates.deep_view(),
            at: self.at as int,
            errors: self.errors.deep_view(),
            subscription: self.subscription@,
        }
    }
}

/// What to do next in a fetch from the billing interface: ask for the subscription, ask for the use,
/// make a quota of the replies, or give up.
#[derive(Debug, PartialEq)]
pub enum KeyStep {
    FetchSubscription { url: String, api_key: String },
    FetchUsage { url: String, api_key: String },
    BuildQuota {
        base_url: String,
        subscription_url: String,
        usage_url: String,
        subscription: Json,
        usage: Json,
    },
    Failed { message: String },
}

/// What is to be done next in a fetch from the billing interface.
#[verifier::ext_equal]
pub enum KeyNext {
    FetchSubscription { url: Seq<char>, api_key: Seq<char> },
    FetchUsage { url: Seq<char>, api_key: Seq<char> },
    BuildQuota {
        base_url: Seq<char>,
        subscription_url: Seq<char>,
        usage_url: Seq<char>,
        subscription: JsonModel,
        usage: JsonModel,
    },
    Failed { message: Seq<char> },
}

impl DeepView for KeyStep {
    type V = KeyNext;

    open spec fn deep_view(&self) -> KeyNext {
        match self {
            KeyStep::FetchSubscription { url, api_key } => KeyNext::FetchSubscription {
                url: url@,
                api_key: api_key@,
            },
            KeyStep::FetchUsage { url, api_key } => KeyNext::FetchUsage {
                url: url@,
                api_key: api_key@,
            },
            KeyStep::BuildQuota { base_url, subscription_url, usage_url, subscription, usage } =>
                KeyNext::BuildQuota {
                base_url: base_url@,
                subscription_url: subscription_url@,
                usage_url: usage_url@,
                subscription: subscription@,
                usage: usage@,
            },
            KeyStep::Failed { message } => KeyNext::Failed { message: message@ },
        }
    }
}

/// The step that tries the addresses that are next, or gives up where all were tried.
pub open spec fn try_key(m: KeyModel) -> KeyNext {
    if 0 <= m.at < m.candidates.len() {
        KeyNext::FetchSubscription { url: m.candidates[m.at].0, api_key: m.api_key }
    } else {
        KeyNext::Failed {
            message: "第三方 API Key 额度接口不可用: "@ + all_errors(
                m.errors,
                "没有可用的额度接口"@,
            ),
        }
    }
}

/// The fetch after a pair of addresses was of no use.
pub open spec fn next_key(m: KeyModel, e: Seq<char>) -> KeyModel {
    KeyModel {
        errors: m.errors.push(e),
        at: if m.at < m.candidates.len() {
            m.at + 1
        } else {
            m.at
        },
        ..m
    }
}

/// How a fetch from the billing interface begins.
pub open spec fn key_begun(api_key: Option<Seq<char>>, base_url: Option<Seq<char>>) -> (
    KeyModel,
    KeyNext,
) {
    let key = match configured(api_key) {
        Some(key) => key,
        None => Seq::empty(),
    };
    let base = match configured(base_url) {
        Some(base) => base,
        None => Seq::empty(),
    };
    let m = KeyModel {
        api_key: key,
        base_url: base,
        candidates: billing_roots(base).map_values(|root: Seq<char>| billing_urls(root)),
        at: 0,
        errors: Seq::empty(),
        subscription: JsonModel::Null,
    };
    let next = if configured(api_key) is None {
        KeyNext::Failed { message: "API Key 账号缺少 API Key"@ }
    } else if configured(base_url) is None {
        KeyNext::Failed { message: "API Key 账号缺少第三方 Base URL，无法读取第三方额度"@ }
    } else if m.candidates.len() == 0 {
        KeyNext::Failed { message: "第三方 Base URL 为空，无法读取额度"@ }
    } else {
        try_key(m)
    };
    (m, next)
}

/// What follows the reply to a question for the subscription of a key.
pub open spec fn after_subscription(m: KeyModel, reply: Result<JsonModel, Seq<char>>) -> (
    KeyModel,
    KeyNext,
) {
    match reply {
        Err(e) => (next_key(m, e), try_key(next_key(m, e))),
        Ok(value) => if 0 <= m.at < m.candidates.len() {
            (
                KeyModel { subscription: value, ..m },
                KeyNext::FetchUsage { url: m.candidates[m.at].1, api_key: m.api_key },
            )
        } else {
            (m, try_key(m))
        },
    }
}

/// What follows the reply to a question for the use of a key.
pub open spec fn after_usage(m: KeyModel, reply: Result<JsonModel, Seq<char>>) -> (
    KeyModel,
    KeyNext,
) {
    match reply {
        Err(e) => (next_key(m, e), try_key(next_key(m, e))),
        Ok(value) => if 0 <= m.at < m.candidates.len() {
            (
                m,
                KeyNext::BuildQuota {
                    base_url: m.base_url,
                    subscription_url: m.candidates[m.at].0,
                    usage_url: m.candidates[m.at].1,
                    subscription: m.subscription,
                    usage: value,
                },
            )
        } else {
            (m, try_key(m))
        },
    }
}

impl KeyFetch {
    /// Begins a fetch with the API key of an account.
    pub fn begin(account: &CodexAccount) -> (r: (KeyFetch, KeyStep))
        ensures
            (r.0.deep_view(), r.1.deep_view()) == key_begun(
                account.openai_api_key.deep_view(),
                account.api_base_url.deep_view(),
            ),
    {
        let key = read_configured(&account.openai_api_key);
        let has_key = key.is_some();
        let api_key = match key {
            Some(key) => key,
            None => String::new(),
        };
        let base = read_configured(&account.api_base_url);
        let has_base = base.is_some();
        let base_url = match base {
            Some(base) => base,
            None => String::new(),
        };
        let candidates = build_api_key_billing_url_candidates(base_url.as_str());
        let fetch = KeyFetch {
            api_key,
            base_url,
            candidates,
            at: 0,
            errors: Vec::new(),
            subscription: Json::Null,
        };
        proof {
            assert(fetch.errors.deep_view() =~= Seq::<Seq<char>>::empty());
        }
        let step = if !has_key {
            KeyStep::Failed { message: "API Key 账号缺少 API Key".to_owned() }
        } else if !has_base {
            KeyStep::Failed {
                message: "API Key 账号缺少第三方 Base URL，无法读取第三方额度".to_owned(),
            }
        } else if fetch.candidates.len() == 0 {
            KeyStep::Failed { message: "第三方 Base URL 为空，无法读取额度".to_owned() }
        } else {
            fetch.try_next()
        };
        (fetch, step)
    }

    fn try_next(&self) -> (r: KeyStep)
        ensures
            r.deep_view() == try_key(self.deep_view()),
    {
        if self.at < self.candidates.len() {
            KeyStep::FetchSubscription {
                url: self.candidates[self.at].0.clone(),
                api_key: self.api_key.clone(),
            }
        } else {
            let mut message = "第三方 API Key 额度接口不可用: ".to_owned();
            message.append(join_errors(&self.errors, "没有可用的额度接口").as_str());
            KeyStep::Failed { message }
        }
    }

    fn move_on(&mut self, error: String) -> (r: KeyStep)
        ensures
            final(self).deep_view() == next_key(old(self).deep_view(), error@),
            r.deep_view() == try_key(next_key(old(self).deep_view(), error@)),
    {
        let ghost before = self.errors.deep_view();
        let ghost m = error@;
        self.errors.push(error);
        proof {
            assert(self.errors.deep_view() =~= before.push(m));
        }
        if self.at < self.candidates.len() {
            self.at = self.at + 1;
        }
        self.try_next()
    }

    /// Takes the reply to a question for the subscription.
    pub fn on_subscription(&mut self, reply: Result<Json, String>) -> (r: KeyStep)
        ensures
            (final(self).deep_view(), r.deep_view()) == after_subscription(
                old(self).deep_view(),
                reply_model(reply),
            ),
    {
        match reply {
            Err(e) => self.move_on(e),
            Ok(value) => {
                if self.at >= self.candidates.len() {
                    return self.try_next();
                }
                self.subscription = value;
                KeyStep::FetchUsage {
                    url: self.candidates[self.at].1.clone(),
                    api_key: self.api_key.clone(),
                }
            },
        }
    }

    /// Takes the reply to a question for the use.
    pub fn on_usage(&mut self, reply: Result<Json, String>) -> (r: KeyStep)
        ensures
            (final(self).deep_view(), r.deep_view()) == after_usage(
                old(self).deep_view(),
                reply_model(reply),
            ),
    {
        match reply {
            Err(e) => self.move_on(e),
            Ok(value) => {
                if self.at >= self.candidates.len() {
                    return self.try_next();
                }
                KeyStep::BuildQuota {
                    base_url: self.base_url.clone(),
                    subscription_url: self.candidates[self.at].0.clone(),
                    usage_url: self.candidates[self.at].1.clone(),
                    subscription: self.subscription.clone(),
                    usage: value,
                }
            },
        }
    }
}

// ---------------------------------------------------------------------------------------------
// One after the other
// ---------------------------------------------------------------------------------------------
/// What follows the fetch from a console: an end, with a quota or an error, or a fetch from the
/// billing interface, with what it is to do first.
#[derive(Debug, PartialEq)]
pub enum AfterConsole {
    End(Result<CodexQuota, String>),
    Start(KeyFetch, KeyStep),
}

/// What follows the fetch from a console. A quota or an error that came of it is the end; the billing
/// interface is asked only where no console is configured.
pub fn after_console(console: Result<Option<CodexQuota>, String>, account: &CodexAccount) -> (r:
    AfterConsole)
    ensures
        match console {
            Err(e) => r == AfterConsole::End(Err(e)),
            Ok(Some(quota)) => r == AfterConsole::End(Ok(quota)),
            Ok(None) => r matches AfterConsole::Start(fetch, step) && (
                fetch.deep_view(),
                step.deep_view(),
            ) == key_begun(account.openai_api_key.deep_view(), account.api_base_url.deep_view()),
        },
{
    match console {
        Err(e) => AfterConsole::End(Err(e)),
        Ok(Some(quota)) => AfterConsole::End(Ok(quota)),
        Ok(None) => {
            let begun = KeyFetch::begin(account);
            AfterConsole::Start(begun.0, begun.1)
        },
    }
}

// ---------------------------------------------------------------------------------------------
// Laws
// ---------------------------------------------------------------------------------------------
/// How many more questions a fetch from a console can ask, at most, when it is about to do a thing.
pub open spec fn questions_left(m: ConsoleModel, next: ConsoleNext) -> int {
    let here = 3 * (m.roots.len() - m.at);
    match next {
        ConsoleNext::FetchStatus { .. } => here,
        ConsoleNext::FetchWithSession { .. } => here - 1,
        ConsoleNext::FetchWithToken { .. } => here - 2,
        _ => 0,
    }
}

/// Every reply brings a fetch from a console nearer to its end, so that no address is asked more than
/// three questions; what it was begun with stays as it is; and what went wrong is never forgotten.
pub proof fn console_fetches_end(
    m: ConsoleModel,
    status_reply: Result<(JsonModel, UrlModel), Seq<char>>,
    reply: Result<JsonModel, Seq<char>>,
)
    requires
        0 <= m.at < m.roots.len(),
    ensures
        ({
            let a = after_status(m, status_reply);
            let b = after_session(m, reply);
            let c = after_token(m, reply);
            let here = 3 * (m.roots.len() - m.at);
            &&& 0 <= questions_left(a.0, a.1) < here
            &&& 0 <= questions_left(b.0, b.1) < here - 1
            &&& 0 <= questions_left(c.0, c.1) < here - 2
            &&& a.0.roots == m.roots && b.0.roots == m.roots && c.0.roots == m.roots
            &&& a.0.auth == m.auth && b.0.auth == m.auth && c.0.auth == m.auth
            &&& m.errors.is_prefix_of(a.0.errors)
            &&& m.errors.is_prefix_of(b.0.errors)
            &&& m.errors.is_prefix_of(c.0.errors)
        }),
{
}

/// A console that says it was a success is believed at once, and a question that fails leads to an
/// error that is told at the end.
pub proof fn console_replies_count(m: ConsoleModel, value: JsonModel, e: Seq<char>)
    requires
        0 <= m.at < m.roots.len(),
    ensures
        is_success(value) ==> after_session(m, Ok(value)) == (m, build_step(m, value)),
        is_success(value) ==> after_token(m, Ok(value)) == (m, build_step(m, value)),
        after_token(m, Err(e)).0.errors == m.errors.push(e),
        after_session(m, Err(e)).0.errors == m.errors.push(e),
        after_status(m, Err(e)).0.errors == m.errors.push(e),
        m.at == m.roots.len() - 1 ==> after_token(m, Err(e)).1 == (ConsoleNext::Failed {
            message: "第三方控制台订阅额度读取失败: "@ + joined(m.errors.push(e), "; "@),
        }),
{
}

/// Every reply brings a fetch from the billing interface nearer to its end: an error moves it on to
/// the next pair of addresses, and two good replies make a quota.
pub proof fn key_fetches_end(m: KeyModel, reply: Result<JsonModel, Seq<char>>, e: Seq<char>)
    requires
        0 <= m.at < m.candidates.len(),
    ensures
        after_subscription(m, Err(e)).0.at == m.at + 1,
        after_usage(m, Err(e)).0.at == m.at + 1,
        after_subscription(m, Err(e)).0.errors == m.errors.push(e),
        after_usage(m, Err(e)).0.errors == m.errors.push(e),
        reply is Ok ==> after_subscription(m, reply).1 is FetchUsage,
        reply is Ok ==> after_usage(m, reply).1 is BuildQuota,
        m.at == m.candidates.len() - 1 ==> after_usage(m, Err(e)).1 == (KeyNext::Failed {
            message: "第三方 API Key 额度接口不可用: "@ + joined(m.errors.push(e), "; "@),
        }),
{
}

/// A fetch from a console begins at the first of its addresses with a question for the status, where
/// there is something that lets one in and a base address. Without the first there is nothing to do,
/// and without the second the fetch fails.
pub proof fn console_fetches_begin_with_the_status(
    token: Option<Seq<char>>,
    base_url: Option<Seq<char>>,
)
    ensures
        ({
            let auth = console_auth(token);
            let let_in = auth.bearer_token is Some || auth.session_cookie is Some
                && auth.user_id is Some;
            let begun = console_begun(token, base_url);
            &&& begun.0.auth == auth
            &&& begun.0.at == 0
            &&& begun.0.errors.len() == 0
            &&& !let_in <==> begun.1 is NotConfigured
            &&& let_in && !(base_url matches Some(url) && !is_blank(url)) ==> begun.1 == (
            ConsoleNext::Failed { message: "控制台额度需要第三方 Base URL"@ })
            &&& base_url matches Some(url) ==> (!is_blank(url) ==> {
                let roots = console_roots(trimmed(url));
                &&& begun.0.base_url == trimmed(url)
                &&& begun.0.roots == roots
                &&& let_in && roots.len() > 0 ==> begun.1 == (ConsoleNext::FetchStatus {
                    url: roots[0] + "/api/status"@,
                })
                &&& let_in && roots.len() == 0 ==> begun.1 == (ConsoleNext::Failed {
                    message: "第三方控制台订阅额度读取失败: "@ + "没有可用的订阅接口"@,
                })
            })
        }),
{
}

/// Once a console has said its status, it is asked for the subscription: with the session of a user
/// where there is one, and otherwise with the token. The address is that of the console that answered,
/// and the status is the data of the reply, or else the whole reply.
pub proof fn consoles_are_asked_for_the_subscription(
    m: ConsoleModel,
    value: JsonModel,
    answered_at: UrlModel,
    root: Seq<char>,
    session_cookie: Seq<char>,
    user_id: Seq<char>,
    token: Seq<char>,
)
    requires
        0 <= m.at < m.roots.len(),
    ensures
        ({
            let after = after_status(m, Ok((value, answered_at)));
            let url = after.0.subscription_url;
            let session = m.auth.session_cookie is Some && m.auth.user_id is Some;
            &&& session || m.auth.bearer_token is Some ==> {
                &&& after.0.at == m.at
                &&& after.0.errors == m.errors
                &&& after.0.base_url == m.base_url
            }
            &&& session && m.auth.session_cookie == Some(session_cookie) && m.auth.user_id == Some(
                user_id,
            ) ==> after.1 == (ConsoleNext::FetchWithSession { url, session_cookie, user_id })
            &&& !session && m.auth.bearer_token == Some(token) ==> after.1 == (
            ConsoleNext::FetchWithToken { url, token })
            &&& root_behind(answered_at, "/api/status"@) == Some(root) ==> url == root
                + "/api/subscription/self"@
            &&& root_behind(answered_at, "/api/status"@) is None ==> url == m.roots[m.at]
                + "/api/subscription/self"@
            &&& value matches JsonModel::Object(fields) ==> {
                &&& fields.contains_key("data"@) ==> after.0.status == fields["data"@]
                &&& !fields.contains_key("data"@) ==> after.0.status == value
            }
        }),
{
}

/// A console that answers with a success is believed, with whatever it was asked. One that refuses the
/// session is asked with the token, where there is one; one that refuses the token is left, and the next
/// address is asked for its status. What it says went wrong is kept.
pub proof fn consoles_that_refuse_are_left(
    m: ConsoleModel,
    fields: Map<Seq<char>, JsonModel>,
    token: Seq<char>,
    message: Seq<char>,
)
    requires
        0 <= m.at < m.roots.len(),
    ensures
        ({
            let value = JsonModel::Object(fields);
            let success = fields.contains_key("success"@) && fields["success"@] == JsonModel::Bool(
                true,
            );
            let s = after_session(m, Ok(value));
            let t = after_token(m, Ok(value));
            &&& success ==> s.0 == m && t.0 == m && s.1 == t.1 && s.1 == (ConsoleNext::BuildQuota {
                base_url: m.base_url,
                subscription_url: m.subscription_url,
                status: m.status,
                subscription: value,
            })
            &&& !success && m.auth.bearer_token == Some(token) ==> s.0.at == m.at && s.1 == (
            ConsoleNext::FetchWithToken { url: m.subscription_url, token })
            &&& !success && m.auth.bearer_token is None ==> s == t
            &&& !success ==> t.0.at == m.at + 1
            &&& !success && m.at + 1 < m.roots.len() ==> t.1 == (ConsoleNext::FetchStatus {
                url: m.roots[m.at + 1] + "/api/status"@,
            })
            &&& !success && says(fields, "message"@, message) ==> t.0.errors == m.errors.push(
                m.subscription_url + " 返回错误: "@ + message,
            ) && s.0.errors == t.0.errors
            &&& !success && !fields.contains_key("message"@) ==> t.0.errors == m.errors
                && s.0.errors == m.errors
        }),
{
}

/// A question to a console that fails leads to the next address, but for one with a session, after which
/// the token is tried at the same address, where there is one. After the last address the fetch fails,
/// with all that went wrong.
pub proof fn failed_questions_lead_to_the_next_address(m: ConsoleModel, e: Seq<char>, token: Seq<char>)
    requires
        0 <= m.at < m.roots.len(),
    ensures
        ({
            let a = after_status(m, Err(e));
            let c = after_token(m, Err(e));
            let b = after_session(m, Err(e));
            &&& a.0.at == m.at + 1 && c.0.at == m.at + 1
            &&& a.1 == c.1
            &&& m.at + 1 < m.roots.len() ==> a.1 == (ConsoleNext::FetchStatus {
                url: m.roots[m.at + 1] + "/api/status"@,
            })
            &&& m.at + 1 == m.roots.len() ==> a.1 == (ConsoleNext::Failed {
                message: "第三方控制台订阅额度读取失败: "@ + joined(m.errors.push(e), "; "@),
            })
            &&& m.auth.bearer_token == Some(token) ==> b.0.at == m.at && b.1 == (
            ConsoleNext::FetchWithToken { url: m.subscription_url, token })
            &&& m.auth.bearer_token is None ==> b == c
        }),
{
}

/// A fetch with an API key begins at the first pair of its addresses with a question for the
/// subscription. It needs a key, and a base address of which something is left.
pub proof fn key_fetches_begin_with_the_subscription(
    api_key: Seq<char>,
    base_url: Seq<char>,
    known: Option<Seq<char>>,
    address: Option<Seq<char>>,
)
    ensures
        ({
            let roots = billing_roots(trimmed(base_url));
            let begun = key_begun(Some(api_key), Some(base_url));
            &&& !is_blank(api_key) && !is_blank(base_url) ==> {
                &&& begun.0.api_key == trimmed(api_key)
                &&& begun.0.base_url == trimmed(base_url)
                &&& begun.0.at == 0
                &&& begun.0.errors.len() == 0
                &&& begun.0.candidates.len() == roots.len()
                &&& forall|i: int|
                    0 <= i < roots.len() ==> #[trigger] begun.0.candidates[i] == (
                        roots[i] + "/dashboard/billing/subscription"@,
                        roots[i] + "/dashboard/billing/usage"@,
                    )
                &&& roots.len() > 0 ==> begun.1 == (KeyNext::FetchSubscription {
                    url: roots[0] + "/dashboard/billing/subscription"@,
                    api_key: trimmed(api_key),
                })
                &&& roots.len() == 0 ==> begun.1 == (KeyNext::Failed {
                    message: "第三方 Base URL 为空，无法读取额度"@,
                })
            }
        }),
        !(known matches Some(key) && !is_blank(key)) ==> key_begun(known, address).1 == (
        KeyNext::Failed { message: "API Key 账号缺少 API Key"@ }),
        (known matches Some(key) && !is_blank(key)) && !(address matches Some(url) && !is_blank(
            url,
        )) ==> key_begun(known, address).1 == (KeyNext::Failed {
            message: "API Key 账号缺少第三方 Base URL，无法读取第三方额度"@,
        }),
{
    let roots = billing_roots(trimmed(base_url));
    let begun = key_begun(Some(api_key), Some(base_url));
    if !is_blank(api_key) && !is_blank(base_url) {
        assert forall|i: int| 0 <= i < roots.len() implies #[trigger] begun.0.candidates[i] == (
            roots[i] + "/dashboard/billing/subscription"@,
            roots[i] + "/dashboard/billing/usage"@,
        ) by {}
    }
}

/// A subscription that was told is kept while the same pair of addresses is asked for the use, with the
/// same key; and what was told then makes a quota together with it. An error at either of the two leads
/// to the next pair.
pub proof fn both_replies_make_a_quota(
    m: KeyModel,
    subscription: JsonModel,
    usage: JsonModel,
    e: Seq<char>,
)
    requires
        0 <= m.at < m.candidates.len(),
    ensures
        ({
            let asked = after_subscription(m, Ok(subscription));
            let told = after_usage(asked.0, Ok(usage));
            let lost = after_subscription(m, Err(e));
            &&& asked.1 == (KeyNext::FetchUsage {
                url: m.candidates[m.at].1,
                api_key: m.api_key,
            })
            &&& asked.0.errors == m.errors && asked.0.at == m.at
            &&& told.1 == (KeyNext::BuildQuota {
                base_url: m.base_url,
                subscription_url: m.candidates[m.at].0,
                usage_url: m.candidates[m.at].1,
                subscription,
                usage,
            })
            &&& lost == after_usage(m, Err(e))
            &&& m.at + 1 < m.candidates.len() ==> lost.1 == (KeyNext::FetchSubscription {
                url: m.candidates[m.at + 1].0,
                api_key: m.api_key,
            })
            &&& lost.0.candidates == m.candidates && lost.0.api_key == m.api_key
                && lost.0.base_url == m.base_url
        }),
{
}

/// A fetch that has tried all its addresses asks no more, whatever it is told: it has failed, and says
/// all that went wrong, or that there was nothing to ask.
pub proof fn fetches_that_tried_all_ask_no_more(
    c: ConsoleModel,
    k: KeyModel,
    value: JsonModel,
    answered_at: UrlModel,
)
    ensures
        c.at == c.roots.len() ==> {
            let after = after_status(c, Ok((value, answered_at)));
            &&& after.0 == c
            &&& c.errors.len() == 0 ==> after.1 == (ConsoleNext::Failed {
                message: "第三方控制台订阅额度读取失败: "@ + "没有可用的订阅接口"@,
            })
            &&& c.errors.len() > 0 ==> after.1 == (ConsoleNext::Failed {
                message: "第三方控制台订阅额度读取失败: "@ + joined(c.errors, "; "@),
            })
        },
        k.at == k.candidates.len() ==> {
            let after = after_subscription(k, Ok(value));
            &&& after.0 == k
            &&& after == after_usage(k, Ok(value))
            &&& k.errors.len() == 0 ==> after.1 == (KeyNext::Failed {
                message: "第三方 API Key 额度接口不可用: "@ + "没有可用的额度接口"@,
            })
            &&& k.errors.len() > 0 ==> after.1 == (KeyNext::Failed {
                message: "第三方 API Key 额度接口不可用: "@ + joined(k.errors, "; "@),
            })
        },
{
}

} // verus!
