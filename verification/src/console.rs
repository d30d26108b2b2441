//! Consoles of third parties: how to be let in, and where to ask.
use vstd::prelude::*;

use crate::content::filled;
use crate::decimal::{digits, int_text, signed_text, unsigned_text};
use crate::json::{as_text, json_get, says, Json, JsonModel};
use crate::json_text::{as_int, json_as_i64, json_read, number_int, parse_json};
use crate::search::{
    ascii_lower_chars, ascii_lowercased, contains, ends, found_at, holds, starts, strip_prefix,
    strip_suffix, texts_stand_where_they_were_put,
};
use crate::text::{
    chars_of, first_of, is_blank, is_space, lemma_first_of, lemma_trimmed_fixed, same_text,
    text_between, trim, trim_end_char, trim_end_of, trimmed, trimming_is_stable,
};

verus! {

// ---------------------------------------------------------------------------------------------
// How to be let in
// ---------------------------------------------------------------------------------------------
/// What lets one into a console: a token, or the cookie of a session together with a user.
#[derive(Debug, Clone, PartialEq, Eq)]
pub struct ConsoleAuthState {
    pub bearer_token: Option<String>,
    pub session_cookie: Option<String>,
    pub user_id: Option<String>,
}

/// What lets one into a console.
#[verifier::ext_equal]
pub struct AuthModel {
    pub bearer_token: Option<Seq<char>>,
    pub session_cookie: Option<Seq<char>>,
    pub user_id: Option<Seq<char>>,
}

impl DeepView for ConsoleAuthState {
    type V = AuthModel;

    open spec fn deep_view(&self) -> AuthModel {
        AuthModel {
            bearer_token: self.bearer_token.deep_view(),
            session_cookie: self.session_cookie.deep_view(),
            user_id: self.user_id.deep_view(),
        }
    }
}

/// The value of a session cookie: what stands before the first semicolon, without the name of the
/// cookie in front and white space at the ends, unless it is empty.
pub open spec fn cookie_value(raw: Seq<char>) -> Option<Seq<char>> {
    let whole = trimmed(raw);
    let value = if starts(whole, "session="@) {
        whole.skip("session="@.len() as int)
    } else {
        whole
    };
    filled(trimmed(value.take(first_of(value, ';'))))
}

/// The value of a session cookie.
pub fn normalize_console_session_cookie(raw: &str) -> (r: Option<String>)
    ensures
        r.deep_view() == cookie_value(raw@),
{
    let whole = trim(raw);
    let value = match strip_prefix(whole, "session=") {
        Some(rest) => rest,
        None => whole,
    };
    let chars = chars_of(value);
    let mut end: usize = 0;
    while end < chars.len() && chars[end] != ';'
        invariant
            chars@ == value@,
            end <= chars@.len(),
            forall|i: int| 0 <= i < end ==> value@[i] != ';',
        decreases chars@.len() - end,
    {
        end += 1;
    }
    proof {
        lemma_first_of(value@, ';', end as int);
        assert(value@.take(end as int) =~= value@.subrange(0, end as int));
    }
    let first = text_between(&chars, 0, end);
    let short = trim(first.as_str());
    if short.is_empty() {
        None
    } else {
        Some(short.to_owned())
    }
}

/// The field `first`, or else the field `second`.
pub open spec fn either_field(j: JsonModel, first: Seq<char>, second: Seq<char>) -> Option<JsonModel> {
    match json_get(j, first) {
        Some(value) => Some(value),
        None => json_get(j, second),
    }
}

/// A text without white space at its ends, unless it is empty.
pub open spec fn short_text(j: Option<JsonModel>) -> Option<Seq<char>> {
    match as_text(j) {
        Some(s) => filled(trimmed(s)),
        None => None,
    }
}

/// A user: a whole number or a text, unless it is empty.
pub open spec fn user_in(j: Option<JsonModel>) -> Option<Seq<char>> {
    match j {
        Some(value) => match as_int(value) {
            Some(n) => Some(int_text(n as int)),
            None => short_text(j),
        },
        None => None,
    }
}

/// What lets one in, out of a JSON value.
pub open spec fn auth_in(j: JsonModel) -> AuthModel {
    let cookie = match json_get(j, "session"@) {
        Some(value) => Some(value),
        None => either_field(j, "session_cookie"@, "cookie"@),
    };
    AuthModel {
        bearer_token: short_text(either_field(j, "token"@, "access_token"@)),
        session_cookie: match as_text(cookie) {
            Some(s) => cookie_value(s),
            None => None,
        },
        user_id: user_in(either_field(j, "user_id"@, "id"@)),
    }
}

/// The token in a text that is no JSON.
pub open spec fn plain_token(text: Seq<char>) -> Seq<char> {
    if starts(text, "Bearer "@) {
        trimmed(text.skip("Bearer "@.len() as int))
    } else if starts(text, "bearer "@) {
        trimmed(text.skip("bearer "@.len() as int))
    } else {
        trimmed(text)
    }
}

/// Nothing that would let one in.
pub open spec fn no_auth() -> AuthModel {
    AuthModel { bearer_token: None, session_cookie: None, user_id: None }
}

/// What lets one into a console, out of what was configured: JSON, or a token as it is.
pub open spec fn console_auth(raw: Option<Seq<char>>) -> AuthModel {
    match raw {
        Some(text) if trimmed(text).len() > 0 => match json_read(trimmed(text)) {
            Ok(j) => auth_in(j),
            Err(_) => AuthModel { bearer_token: Some(plain_token(trimmed(text))), ..no_auth() },
        },
        _ => no_auth(),
    }
}

fn get_either<'a>(j: &'a Json, first: &str, second: &str) -> (r: Option<&'a Json>)
    ensures
        match r {
            Some(value) => either_field(j@, first@, second@) == Some(value@),
            None => either_field(j@, first@, second@) is None,
        },
{
    match j.get(first) {
        Some(value) => Some(value),
        None => j.get(second),
    }
}

fn read_short_text(value: &Json) -> (r: Option<String>)
    ensures
        r.deep_view() == short_text(Some(value@)),
{
    match value.as_str() {
        Some(s) => {
            let short = trim(s);
            if short.is_empty() {
                None
            } else {
                Some(short.to_owned())
            }
        },
        None => None,
    }
}

fn read_auth(j: &Json) -> (r: ConsoleAuthState)
    ensures
        r.deep_view() == auth_in(j@),
{
    let bearer_token = match get_either(j, "token", "access_token") {
        Some(value) => read_short_text(value),
        None => None,
    };
    let cookie = match j.get("session") {
        Some(value) => Some(value),
        None => get_either(j, "session_cookie", "cookie"),
    };
    let session_cookie = match cookie {
        Some(value) => match value.as_str() {
            Some(s) => normalize_console_session_cookie(s),
            None => None,
        },
        None => None,
    };
    let user_id = match get_either(j, "user_id", "id") {
        Some(value) => match json_as_i64(value) {
            Some(n) => Some(signed_text(n)),
            None => read_short_text(value),
        },
        None => None,
    };
    ConsoleAuthState { bearer_token, session_cookie, user_id }
}

/// What lets one into a console, out of what was configured: JSON, or a token as it is.
pub fn parse_console_auth(raw: Option<&str>) -> (r: ConsoleAuthState)
    ensures
        r.deep_view() == console_auth(raw.deep_view()),
{
    let text = match raw {
        Some(text) => trim(text),
        None => {
            return ConsoleAuthState { bearer_token: None, session_cookie: None, user_id: None };
        },
    };
    if text.is_empty() {
        return ConsoleAuthState { bearer_token: None, session_cookie: None, user_id: None };
    }
    match parse_json(text) {
        Ok(j) => read_auth(&j),
        Err(_) => {
            let token = match strip_prefix(text, "Bearer ") {
                Some(rest) => rest,
                None => match strip_prefix(text, "bearer ") {
                    Some(rest) => rest,
                    None => text,
                },
            };
            ConsoleAuthState {
                bearer_token: Some(trim(token).to_owned()),
                session_cookie: None,
                user_id: None,
            }
        },
    }
}

// ---------------------------------------------------------------------------------------------
// Where to ask
// ---------------------------------------------------------------------------------------------
/// An address without white space at its ends and slashes behind it.
pub open spec fn clean_root(s: Seq<char>) -> Seq<char> {
    trim_end_of(trimmed(s), '/')
}

/// The addresses in order, each cleaned and named once; empty ones are left out.
pub open spec fn distinct_roots(raw: Seq<Seq<char>>) -> Seq<Seq<char>>
    decreases raw.len(),
{
    if raw.len() == 0 {
        Seq::empty()
    } else {
        let before = distinct_roots(raw.drop_last());
        let root = clean_root(raw.last());
        if root.len() == 0 || before.contains(root) {
            before
        } else {
            before.push(root)
        }
    }
}

/// Whether an address ends with the version of the interface, in whatever case.
pub open spec fn is_versioned(base: Seq<char>) -> bool {
    ends(ascii_lowercased(base), "/v1"@)
}

/// An address without the version of the interface behind it.
pub open spec fn unversioned(base: Seq<char>) -> Seq<char> {
    base.take(base.len() - 3)
}

/// The addresses that a console may be found at: those of a provider that keeps its console
/// elsewhere, and then the base address without and with the version of the interface.
pub open spec fn console_roots(base_url: Seq<char>) -> Seq<Seq<char>> {
    let base = clean_root(base_url);
    let elsewhere = if holds(ascii_lowercased(base), "llmskill.cn"@) {
        seq!["https://www.tokenforus.org"@, "https://tokenforus.org"@]
    } else {
        Seq::empty()
    };
    let own = if is_versioned(base) {
        seq![unversioned(base), base]
    } else {
        seq![base, base + "/v1"@]
    };
    if base.len() == 0 {
        Seq::empty()
    } else {
        distinct_roots(elsewhere + own)
    }
}

/// The addresses that the billing interface may be found at: the base address with and without the
/// version of the interface.
pub open spec fn billing_roots(base_url: Seq<char>) -> Seq<Seq<char>> {
    let base = clean_root(base_url);
    let own = if is_versioned(base) {
        seq![base, unversioned(base)]
    } else {
        seq![base + "/v1"@, base]
    };
    if base.len() == 0 {
        Seq::empty()
    } else {
        distinct_roots(own)
    }
}

/// The two addresses of the billing interface: of the subscription and of the use.
pub open spec fn billing_urls(root: Seq<char>) -> (Seq<char>, Seq<char>) {
    (root + "/dashboard/billing/subscription"@, root + "/dashboard/billing/usage"@)
}

fn listed(list: &Vec<String>, s: &str) -> (r: bool)
    ensures
        r == list.deep_view().contains(s@),
{
    let mut i: usize = 0;
    while i < list.len()
        invariant
            i <= list@.len(),
            forall|k: int| 0 <= k < i ==> (#[trigger] list@[k])@ != s@,
        decreases list@.len() - i,
    {
        if same_text(list[i].as_str(), s) {
            proof {
                assert(list.deep_view()[i as int] == s@);
            }
            return true;
        }
        i += 1;
    }
    proof {
        assert forall|k: int| 0 <= k < list.deep_view().len() implies list.deep_view()[k] != s@ by {
            assert(list@[k]@ != s@);
        }
    }
    false
}

fn clean<'a>(s: &'a str) -> (r: &'a str)
    ensures
        r@ == clean_root(s@),
{
    trim_end_char(trim(s), '/')
}

fn keep_distinct(raw: &Vec<String>) -> (r: Vec<String>)
    ensures
        r.deep_view() == distinct_roots(raw.deep_view()),
{
    let ghost all = raw.deep_view();
    let mut roots: Vec<String> = Vec::new();
    let mut i: usize = 0;
    proof {
        assert(roots.deep_view() =~= distinct_roots(all.take(0)));
    }
    while i < raw.len()
        invariant
            all == raw.deep_view(),
            i <= raw@.len(),
            roots.deep_view() == distinct_roots(all.take(i as int)),
        decreases raw@.len() - i,
    {
        let ghost before = roots.deep_view();
        proof {
            assert(all.take(i + 1).drop_last() =~= all.take(i as int));
            assert(all.take(i + 1).last() == raw@[i as int]@);
        }
        let root = clean(raw[i].as_str());
        if !root.is_empty() && !listed(&roots, root) {
            roots.push(root.to_owned());
            proof {
                assert(roots.deep_view() =~= before.push(root@));
            }
        }
        i += 1;
    }
    proof {
        assert(all.take(i as int) =~= all);
    }
    roots
}

fn ends_with_version(lower: &Vec<char>) -> (r: bool)
    ensures
        r == ends(lower@, "/v1"@),
{
    let wanted = chars_of("/v1");
    if wanted.len() <= lower.len() {
        found_at(lower, &wanted, lower.len() - wanted.len())
    } else {
        false
    }
}

fn without_version(base: &str) -> (r: String)
    requires
        is_versioned(base@),
    ensures
        r@ == unversioned(base@),
{
    let chars = chars_of(base);
    proof {
        reveal_strlit("/v1");
        assert(base@.take(base@.len() - 3) =~= base@.subrange(0, base@.len() - 3));
    }
    text_between(&chars, 0, chars.len() - 3)
}

/// The addresses that a console may be found at, in the order in which they are tried.
pub fn build_console_root_candidates(base_url: &str) -> (r: Vec<String>)
    ensures
        r.deep_view() == console_roots(base_url@),
{
    let base = clean(base_url);
    if base.is_empty() {
        let none: Vec<String> = Vec::new();
        proof {
            assert(none.deep_view() =~= Seq::<Seq<char>>::empty());
        }
        return none;
    }
    let lower = ascii_lower_chars(base);
    let mut raw: Vec<String> = Vec::new();
    if contains(&lower, "llmskill.cn") {
        raw.push("https://www.tokenforus.org".to_owned());
        raw.push("https://tokenforus.org".to_owned());
    }
    let ghost elsewhere = raw.deep_view();
    proof {
        assert(elsewhere =~= if holds(lower@, "llmskill.cn"@) {
            seq!["https://www.tokenforus.org"@, "https://tokenforus.org"@]
        } else {
            Seq::empty()
        });
    }
    if ends_with_version(&lower) {
        raw.push(without_version(base));
        raw.push(base.to_owned());
        proof {
            assert(raw.deep_view() =~= elsewhere + seq![unversioned(base@), base@]);
        }
    } else {
        let mut versioned = base.to_owned();
        versioned.append("/v1");
        raw.push(base.to_owned());
        raw.push(versioned);
        proof {
            assert(raw.deep_view() =~= elsewhere + seq![base@, base@ + "/v1"@]);
        }
    }
    keep_distinct(&raw)
}

/// The addresses of the billing interface, of the subscription and of the use, in the order in which
/// they are tried.
pub fn build_api_key_billing_url_candidates(base_url: &str) -> (r: Vec<(String, String)>)
    ensures
        r.deep_view() == billing_roots(base_url@).map_values(
            |root: Seq<char>| billing_urls(root),
        ),
{
    let base = clean(base_url);
    let mut out: Vec<(String, String)> = Vec::new();
    if base.is_empty() {
        proof {
            assert(out.deep_view() =~= billing_roots(base_url@).map_values(
                |root: Seq<char>| billing_urls(root),
            ));
        }
        return out;
    }
    let lower = ascii_lower_chars(base);
    let mut raw: Vec<String> = Vec::new();
    if ends_with_version(&lower) {
        raw.push(base.to_owned());
        raw.push(without_version(base));
        proof {
            assert(raw.deep_view() =~= seq![base@, unversioned(base@)]);
        }
    } else {
        let mut versioned = base.to_owned();
        versioned.append("/v1");
        raw.push(versioned);
        raw.push(base.to_owned());
        proof {
            assert(raw.deep_view() =~= seq![base@ + "/v1"@, base@]);
        }
    }
    let roots = keep_distinct(&raw);
    let mut i: usize = 0;
    while i < roots.len()
        invariant
            i <= roots@.len(),
            out@.len() == i,
            forall|k: int|
                0 <= k < i ==> (#[trigger] out@[k]).deep_view() == billing_urls(roots@[k]@),
        decreases roots@.len() - i,
    {
        let mut subscription_url = roots[i].clone();
        subscription_url.append("/dashboard/billing/subscription");
        let mut usage_url = roots[i].clone();
        usage_url.append("/dashboard/billing/usage");
        out.push((subscription_url, usage_url));
        i += 1;
    }
    proof {
        assert(roots.deep_view() == billing_roots(base_url@));
        assert(out.deep_view() =~= roots.deep_view().map_values(
            |root: Seq<char>| billing_urls(root),
        ));
    }
    out
}

/// An address in its parts. The port is missing where it is the usual one.
#[derive(Debug, Clone, PartialEq, Eq)]
pub struct UrlParts {
    pub scheme: String,
    pub host: Option<String>,
    pub port: Option<u16>,
    pub path: String,
}

/// What an address is made of.
#[verifier::ext_equal]
pub struct UrlModel {
    pub scheme: Seq<char>,
    pub host: Option<Seq<char>>,
    pub port: Option<u16>,
    pub path: Seq<char>,
}

impl DeepView for UrlParts {
    type V = UrlModel;

    open spec fn deep_view(&self) -> UrlModel {
        UrlModel {
            scheme: self.scheme@,
            host: self.host.deep_view(),
            port: self.port,
            path: self.path@,
        }
    }
}

/// The address that a service was found at, out of the address that its endpoint answered at in the
/// end: all but the path of the endpoint.
pub open spec fn root_behind(url: UrlModel, endpoint_path: Seq<char>) -> Option<Seq<char>> {
    match url.host {
        Some(host) => if ends(url.path, endpoint_path) {
            let base = trim_end_of(url.path.take(url.path.len() - endpoint_path.len()), '/');
            let port = match url.port {
                Some(n) => seq![':'] + digits(n as nat),
                None => Seq::empty(),
            };
            Some(trim_end_of(url.scheme + "://"@ + host + port + base, '/'))
        } else {
            None
        },
        None => None,
    }
}

/// The address that a service was found at, out of the address that its endpoint answered at.
pub fn derive_console_root_from_endpoint_url(final_url: &UrlParts, endpoint_path: &str) -> (r: Option<
    String,
>)
    ensures
        r.deep_view() == root_behind(final_url.deep_view(), endpoint_path@),
{
    let base = match strip_suffix(final_url.path.as_str(), endpoint_path) {
        Some(base) => trim_end_char(base, '/'),
        None => {
            return None;
        },
    };
    let host = match &final_url.host {
        Some(host) => host,
        None => {
            return None;
        },
    };
    let mut root = final_url.scheme.clone();
    root.append("://");
    root.append(host.as_str());
    let ghost before = root@;
    match final_url.port {
        Some(port) => {
            root.push(':');
            root.append(unsigned_text(port as u64).as_str());
            proof {
                assert(root@ =~= before + (seq![':'] + digits(port as nat)));
            }
        },
        None => {
            proof {
                assert(root@ =~= before + Seq::<char>::empty());
            }
        },
    }
    root.append(base);
    Some(trim_end_char(root.as_str(), '/').to_owned())
}

// ---------------------------------------------------------------------------------------------
// Laws
// ---------------------------------------------------------------------------------------------
proof fn lemma_trim_end_of(s: Seq<char>, c: char)
    ensures
        trim_end_of(s, c).len() > 0 ==> trim_end_of(s, c).last() != c,
        trim_end_of(s, c).len() <= s.len(),
    decreases s.len(),
{
    if s.len() > 0 && s.last() == c {
        lemma_trim_end_of(s.drop_last(), c);
    }
}

/// The addresses that are tried are all different, none is empty, and none ends with a slash.
pub proof fn tried_addresses_differ(raw: Seq<Seq<char>>)
    ensures
        distinct_roots(raw).no_duplicates(),
        forall|i: int|
            0 <= i < distinct_roots(raw).len() ==> (#[trigger] distinct_roots(raw)[i]).len() > 0
                && distinct_roots(raw)[i].last() != '/',
        distinct_roots(raw).len() <= raw.len(),
    decreases raw.len(),
{
    if raw.len() > 0 {
        tried_addresses_differ(raw.drop_last());
        lemma_trim_end_of(trimmed(raw.last()), '/');
        let before = distinct_roots(raw.drop_last());
        let root = clean_root(raw.last());
        if root.len() > 0 && !before.contains(root) {
            let r = distinct_roots(raw);
            assert forall|i: int, j: int| 0 <= i < r.len() && 0 <= j < r.len() && i != j implies r[i]
                != r[j] by {
                if i < before.len() && j < before.len() {
                    assert(before[i] != before[j]);
                } else if i < before.len() {
                    assert(before.contains(before[i]));
                } else {
                    assert(before.contains(before[j]));
                }
            }
        }
    }
}

/// Every address is tried, in some place, unless nothing is left of it.
pub proof fn no_address_is_forgotten(raw: Seq<Seq<char>>)
    ensures
        forall|i: int|
            0 <= i < raw.len() && clean_root(#[trigger] raw[i]).len() > 0 ==> distinct_roots(
                raw,
            ).contains(clean_root(raw[i])),
    decreases raw.len(),
{
    if raw.len() > 0 {
        let before = raw.drop_last();
        no_address_is_forgotten(before);
        let r = distinct_roots(raw);
        let earlier = distinct_roots(before);
        assert forall|i: int|
            0 <= i < raw.len() && clean_root(#[trigger] raw[i]).len() > 0 implies r.contains(
            clean_root(raw[i]),
        ) by {
            let root = clean_root(raw[i]);
            if i < before.len() {
                assert(raw[i] == before[i]);
                assert(earlier.contains(root));
                let k = choose|k: int| 0 <= k < earlier.len() && earlier[k] == root;
                assert(r[k] == root);
            } else if !earlier.contains(root) {
                assert(r[earlier.len() as int] == root);
            }
        }
    }
}

/// A token that is given as it is, with or without the word in front, is taken as it is.
pub proof fn bare_tokens_are_kept(text: Seq<char>)
    requires
        trimmed(text).len() > 0,
        json_read(trimmed(text)) is Err,
    ensures
        console_auth(Some(text)).bearer_token is Some,
        console_auth(Some(text)).session_cookie is None,
        console_auth(Some(text)).user_id is None,
        !starts(trimmed(text), "Bearer "@) && !starts(trimmed(text), "bearer "@) ==> console_auth(
            Some(text),
        ).bearer_token == Some(trimmed(text)),
{
    trimming_is_stable(text);
}

/// The value of a session cookie is what is given, whether the name of the cookie stands in front of it
/// or not, and whether attributes follow it or not; white space around it does not count.
pub proof fn cookies_keep_their_value(raw: Seq<char>, value: Seq<char>, attributes: Seq<char>)
    requires
        value.len() > 0,
        trimmed(value) == value,
        forall|i: int| 0 <= i < value.len() ==> value[i] != ';',
        !starts(value, "session="@),
    ensures
        trimmed(raw) == value ==> cookie_value(raw) == Some(value),
        trimmed(raw) == value + seq![';'] + attributes && !starts(trimmed(raw), "session="@)
            ==> cookie_value(raw) == Some(value),
        trimmed(raw) == "session="@ + value ==> cookie_value(raw) == Some(value),
        trimmed(raw) == "session="@ + value + seq![';'] + attributes ==> cookie_value(raw) == Some(
            value,
        ),
        is_blank(raw) ==> cookie_value(raw) is None,
{
    reveal_strlit("session=");
    let mark = "session="@;
    let n = value.len() as int;
    let whole = trimmed(raw);
    lemma_first_of(value, ';', n);
    assert(value.take(n) =~= value);
    let longer = value + seq![';'] + attributes;
    assert forall|i: int| 0 <= i < n implies longer[i] != ';' by {
        assert(longer[i] == value[i]);
    }
    lemma_first_of(longer, ';', n);
    assert(longer.take(n) =~= value);
    if whole == mark + value {
        texts_stand_where_they_were_put(Seq::empty(), mark, value);
        assert(whole.skip(mark.len() as int) =~= value);
    }
    if whole == mark + value + seq![';'] + attributes {
        assert(whole =~= mark + longer);
        texts_stand_where_they_were_put(Seq::empty(), mark, longer);
        assert(whole.skip(mark.len() as int) =~= longer);
    }
    if is_blank(raw) {
        assert(!starts(whole, mark));
        assert(whole.take(first_of(whole, ';')) =~= whole);
        assert(trimmed(whole).len() == 0) by {
            trimming_is_stable(raw);
        }
    }
}

/// Whether a text is what is left of another one without white space at its ends, where anything is.
pub open spec fn is_short_of(r: Option<Seq<char>>, text: Seq<char>) -> bool {
    if is_blank(text) {
        r is None
    } else {
        r == Some(trimmed(text))
    }
}

/// What lets one in is taken from its own fields: the token from `token` or else `access_token`, the
/// cookie from `session` or else `session_cookie` or else `cookie`, and the user from `user_id` or else
/// `id`.
pub proof fn logins_are_read_from_their_fields(
    raw: Seq<char>,
    fields: Map<Seq<char>, JsonModel>,
    text: Seq<char>,
    n: i64,
    number: serde_json::Number,
)
    requires
        !is_blank(raw),
        json_read(trimmed(raw)) == Ok::<JsonModel, Seq<char>>(JsonModel::Object(fields)),
    ensures
        ({
            let auth = console_auth(Some(raw));
            &&& says(fields, "token"@, text) ==> is_short_of(auth.bearer_token, text)
            &&& !fields.contains_key("token"@) && says(fields, "access_token"@, text)
                ==> is_short_of(auth.bearer_token, text)
            &&& !fields.contains_key("token"@) && !fields.contains_key("access_token"@)
                ==> auth.bearer_token is None
            &&& says(fields, "session"@, text) ==> auth.session_cookie == cookie_value(text)
            &&& !fields.contains_key("session"@) && says(fields, "session_cookie"@, text)
                ==> auth.session_cookie == cookie_value(text)
            &&& !fields.contains_key("session"@) && !fields.contains_key("session_cookie"@) && says(
                fields,
                "cookie"@,
                text,
            ) ==> auth.session_cookie == cookie_value(text)
            &&& !fields.contains_key("session"@) && !fields.contains_key("session_cookie"@)
                && !fields.contains_key("cookie"@) ==> auth.session_cookie is None
            &&& says(fields, "user_id"@, text) ==> is_short_of(auth.user_id, text)
            &&& fields.contains_key("user_id"@) && fields["user_id"@] == JsonModel::Number(number)
                && number_int(number) == Some(n) ==> auth.user_id == Some(int_text(n as int))
            &&& !fields.contains_key("user_id"@) && says(fields, "id"@, text) ==> is_short_of(
                auth.user_id,
                text,
            )
            &&& !fields.contains_key("user_id"@) && fields.contains_key("id"@) && fields["id"@]
                == JsonModel::Number(number) && number_int(number) == Some(n) ==> auth.user_id
                == Some(int_text(n as int))
            &&& !fields.contains_key("user_id"@) && !fields.contains_key("id"@)
                ==> auth.user_id is None
        }),
{
}

/// What is configured as no JSON is a token, without the word in front of it and without white space at
/// its ends; what is not configured, or blank, lets no one in.
pub proof fn plain_tokens_are_read(raw: Seq<char>, token: Seq<char>)
    ensures
        !is_blank(raw) && json_read(trimmed(raw)) is Err && trimmed(raw) == "Bearer "@ + token
            ==> console_auth(Some(raw)).bearer_token == Some(trimmed(token)),
        !is_blank(raw) && json_read(trimmed(raw)) is Err && trimmed(raw) == "bearer "@ + token
            ==> console_auth(Some(raw)).bearer_token == Some(trimmed(token)),
        is_blank(raw) ==> console_auth(Some(raw)).bearer_token is None && console_auth(
            Some(raw),
        ).session_cookie is None && console_auth(Some(raw)).user_id is None,
        console_auth(None).bearer_token is None,
        console_auth(None).session_cookie is None,
        console_auth(None).user_id is None,
{
    reveal_strlit("Bearer ");
    reveal_strlit("bearer ");
    texts_stand_where_they_were_put(Seq::empty(), "Bearer "@, token);
    texts_stand_where_they_were_put(Seq::empty(), "bearer "@, token);
    assert(("Bearer "@ + token).skip("Bearer "@.len() as int) =~= token);
    assert(("bearer "@ + token).skip("bearer "@.len() as int) =~= token);
    let s = "bearer "@ + token;
    if starts(s, "Bearer "@) {
        assert(s.subrange(0, 7)[0] == 'B');
    }
}

/// Whether an address stands as it is: it has no white space at its ends and no slash behind it.
pub open spec fn is_plain_address(s: Seq<char>) -> bool {
    s.len() > 0 && trimmed(s) == s && s.last() != '/'
}

proof fn lemma_plain_address(s: Seq<char>)
    requires
        is_plain_address(s),
    ensures
        clean_root(s) == s,
        is_plain_address(s + "/v1"@),
        clean_root(s + "/v1"@) == s + "/v1"@,
        is_versioned(s + "/v1"@),
        unversioned(s + "/v1"@) == s,
{
    reveal_strlit("/v1");
    let v = s + "/v1"@;
    trimming_is_stable(s);
    assert(v[0] == s[0]);
    assert(v.last() == '1');
    assert(!is_space('1'));
    lemma_trimmed_fixed(v);
    let lower = ascii_lowercased(v);
    assert(lower.subrange(lower.len() - 3, lower.len() as int) =~= "/v1"@);
    assert(v.take(v.len() - 3) =~= s);
}

/// The addresses that are tried are the base address with the version of the interface behind it and
/// without it. A console is first looked for without the version, the billing interface with it; and it
/// makes no difference whether the base address was given with the version or without it.
pub proof fn addresses_are_tried_with_and_without_version(base: Seq<char>)
    requires
        is_plain_address(base),
        !ends(ascii_lowercased(base), "/v1"@),
    ensures
        !holds(ascii_lowercased(base), "llmskill.cn"@) ==> console_roots(base) == seq![
            base,
            base + "/v1"@,
        ],
        !holds(ascii_lowercased(base + "/v1"@), "llmskill.cn"@) ==> console_roots(base + "/v1"@)
            == seq![base, base + "/v1"@],
        billing_roots(base) == seq![base + "/v1"@, base],
        billing_roots(base + "/v1"@) == seq![base + "/v1"@, base],
        holds(ascii_lowercased(base), "llmskill.cn"@) ==> console_roots(base) == distinct_roots(
            seq!["https://www.tokenforus.org"@, "https://tokenforus.org"@, base, base + "/v1"@],
        ),
{
    let v = base + "/v1"@;
    lemma_plain_address(base);
    assert(base.len() != v.len()) by {
        reveal_strlit("/v1");
    }
    lemma_two_roots(base, v);
    lemma_two_roots(v, base);
    assert(Seq::<Seq<char>>::empty() + seq![base, v] =~= seq![base, v]);
    let elsewhere = seq!["https://www.tokenforus.org"@, "https://tokenforus.org"@];
    assert(elsewhere + seq![base, v] =~= seq![
        "https://www.tokenforus.org"@,
        "https://tokenforus.org"@,
        base,
        v,
    ]);
}

proof fn lemma_two_roots(a: Seq<char>, b: Seq<char>)
    requires
        clean_root(a) == a,
        clean_root(b) == b,
        a.len() > 0,
        b.len() > 0,
        a != b,
    ensures
        distinct_roots(seq![a, b]) == seq![a, b],
{
    reveal_with_fuel(distinct_roots, 3);
    let raw = seq![a, b];
    assert(raw.drop_last() =~= seq![a]);
    assert(raw.drop_last().drop_last() =~= Seq::<Seq<char>>::empty());
    assert(distinct_roots(seq![a]) =~= seq![a]);
    assert(!seq![a].contains(b));
}

/// White space around a base address and slashes behind it make no difference; without an address
/// nothing is tried.
pub proof fn addresses_are_cleaned(raw: Seq<char>, base: Seq<char>)
    requires
        is_plain_address(base),
    ensures
        trimmed(raw) == base || trimmed(raw) == base + seq!['/'] || trimmed(raw) == base + seq![
            '/',
            '/',
        ] ==> console_roots(raw) == console_roots(base) && billing_roots(raw) == billing_roots(base),
        is_blank(raw) ==> console_roots(raw).len() == 0 && billing_roots(raw).len() == 0,
{
    lemma_plain_address(base);
    let one = base + seq!['/'];
    let two = base + seq!['/', '/'];
    assert(one.drop_last() =~= base);
    assert(two.drop_last() =~= one);
    reveal_with_fuel(trim_end_of, 4);
    assert(trim_end_of(one, '/') == base);
    assert(trim_end_of(two, '/') == base);
}

/// The billing interface is asked at two addresses behind each root, one for the subscription and one
/// for the use.
pub proof fn billing_is_asked_at_two_addresses(root: Seq<char>)
    ensures
        billing_urls(root).0 == root + "/dashboard/billing/subscription"@,
        billing_urls(root).1 == root + "/dashboard/billing/usage"@,
{
}

/// The address that a service was found at is that of its endpoint without the path of the endpoint: put
/// together again they give the address that answered.
pub proof fn roots_and_endpoints_make_up_addresses(
    url: UrlModel,
    endpoint_path: Seq<char>,
    host: Seq<char>,
    base: Seq<char>,
)
    requires
        url.host == Some(host),
        host.len() > 0,
        host.last() != '/',
        base.len() > 0 ==> base.last() != '/',
    ensures
        url.path == base + endpoint_path && url.port is None ==> root_behind(url, endpoint_path)
            == Some(url.scheme + "://"@ + host + base),
        url.path == base + endpoint_path ==> (url.port matches Some(n) ==> root_behind(
            url,
            endpoint_path,
        ) == Some(url.scheme + "://"@ + host + seq![':'] + digits(n as nat) + base)),
        !ends(url.path, endpoint_path) ==> root_behind(url, endpoint_path) is None,
{
    if url.path == base + endpoint_path {
        texts_stand_where_they_were_put(base, endpoint_path, Seq::empty());
        assert(url.path.take(url.path.len() - endpoint_path.len()) =~= base);
        let head = url.scheme + "://"@ + host;
        match url.port {
            None => {
                let root = head + Seq::<char>::empty() + base;
                assert(root =~= head + base);
                assert(root.last() != '/');
            },
            Some(n) => {
                let port = seq![':'] + digits(n as nat);
                let root = head + port + base;
                lemma_last_digit(n as nat);
                assert(root =~= head + seq![':'] + digits(n as nat) + base);
                if base.len() == 0 {
                    assert(root.last() == digits(n as nat).last());
                }
                assert(root.last() != '/');
            },
        }
    }
}

proof fn lemma_last_digit(n: nat)
    ensures
        digits(n).len() > 0,
        digits(n).last() != '/',
{
}

/// A service whose address has no host was found nowhere.
pub proof fn addresses_need_a_host(url: UrlModel, endpoint_path: Seq<char>)
    requires
        url.host is None,
    ensures
        root_behind(url, endpoint_path) is None,
{
}

} // verus!
