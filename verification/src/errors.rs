//! Error messages of the services: what they hold, and what they call for.
use vstd::prelude::*;

use crate::decimal::{digits, unsigned_text};
use crate::json::{as_text, json_get, says, Json, JsonModel};
use crate::json_text::{display_json, json_display, json_read, parse_json};
use crate::search::{
    ascii_lower_chars, ascii_lowercased, contains, find_from, first_at, holds, stands_at,
    texts_are_found_where_they_stand, texts_stand_where_they_were_put,
};
use crate::text::{chars_of, first_of, lemma_first_of, text_between};

verus! {

// ---------------------------------------------------------------------------------------------
// Error codes
// ---------------------------------------------------------------------------------------------
/// The text at the end of a path of names.
pub open spec fn text_at(j: JsonModel, first: Seq<char>, second: Seq<char>) -> Option<Seq<char>> {
    match json_get(j, first) {
        Some(inner) => as_text(json_get(inner, second)),
        None => None,
    }
}

/// The error code in a reply: in its `detail`, or else in its `error`, or else in itself.
pub open spec fn detail_code(body: Seq<char>) -> Option<Seq<char>> {
    match json_read(body) {
        Ok(j) => match (text_at(j, "detail"@, "code"@), text_at(j, "error"@, "code"@)) {
            (Some(code), _) => Some(code),
            (None, Some(code)) => Some(code),
            (None, None) => as_text(json_get(j, "code"@)),
        },
        Err(_) => None,
    }
}

fn get_text_at<'a>(j: &'a Json, first: &str, second: &str) -> (r: Option<&'a str>)
    ensures
        r.deep_view() == text_at(j@, first@, second@),
{
    match j.get(first) {
        Some(inner) => match inner.get(second) {
            Some(value) => value.as_str(),
            None => None,
        },
        None => None,
    }
}

/// The error code in a reply: in its `detail`, or else in its `error`, or else in itself.
pub fn extract_detail_code_from_body(body: &str) -> (r: Option<String>)
    ensures
        r.deep_view() == detail_code(body@),
{
    let value = match parse_json(body) {
        Ok(value) => value,
        Err(_) => {
            return None;
        },
    };
    if let Some(code) = get_text_at(&value, "detail", "code") {
        return Some(code.to_owned());
    }
    if let Some(code) = get_text_at(&value, "error", "code") {
        return Some(code.to_owned());
    }
    match value.get("code") {
        Some(code) => match code.as_str() {
            Some(text) => Some(text.to_owned()),
            None => None,
        },
        None => None,
    }
}

/// What stands before an error code in a message.
pub open spec fn code_marker() -> Seq<char> {
    "[error_code:"@
}

/// The error code in a message: what stands between the first marker and the next closing bracket.
pub open spec fn is_code_in(message: Seq<char>, code: Seq<char>) -> bool {
    exists|at: int| #[trigger]
        first_at(message, code_marker(), 0, at) && {
            let rest = message.skip(at + code_marker().len());
            let end = first_of(rest, ']');
            end < rest.len() && code == rest.take(end)
        }
}

/// Whether a message holds an error code.
pub open spec fn has_code(message: Seq<char>) -> bool {
    exists|at: int| #[trigger]
        first_at(message, code_marker(), 0, at) && {
            let rest = message.skip(at + code_marker().len());
            first_of(rest, ']') < rest.len()
        }
}

/// The error code in a message: what stands between the first marker and the next closing bracket.
pub fn extract_error_code_from_message(message: &str) -> (r: Option<String>)
    ensures
        match r {
            Some(code) => is_code_in(message@, code@),
            None => !has_code(message@),
        },
{
    let chars = chars_of(message);
    let marker = chars_of("[error_code:");
    let start: usize = match find_from(&chars, &marker, 0) {
        Some(start) => start,
        None => {
            return None;
        },
    };
    let total: usize = chars.len();
    proof {
        assert(start + marker@.len() <= total);
    }
    let code_start: usize = start + marker.len();
    let mut end: usize = code_start;
    while end < chars.len() && chars[end] != ']'
        invariant
            chars@ == message@,
            code_start <= end <= chars@.len(),
            forall|i: int| code_start <= i < end ==> message@[i] != ']',
        decreases chars@.len() - end,
    {
        end += 1;
    }
    let ghost rest = message@.skip(code_start as int);
    proof {
        assert forall|i: int| 0 <= i < end - code_start implies rest[i] != ']' by {
            assert(rest[i] == message@[code_start + i]);
        }
        lemma_first_of(rest, ']', end - code_start);
        assert(first_at(message@, code_marker(), 0, start as int));
    }
    if end < chars.len() {
        proof {
            assert(rest.take(end - code_start) =~= message@.subrange(
                code_start as int,
                end as int,
            ));
        }
        Some(text_between(&chars, code_start, end))
    } else {
        proof {
            assert forall|at: int| #[trigger] first_at(message@, code_marker(), 0, at) implies at
                == start by {
                lemma_first_is_unique(message@, code_marker(), at, start as int);
            }
        }
        None
    }
}

proof fn lemma_first_is_unique(s: Seq<char>, part: Seq<char>, a: int, b: int)
    requires
        first_at(s, part, 0, a),
        first_at(s, part, 0, b),
    ensures
        a == b,
{
    if a < b {
        assert(!stands_at(s, part, a));
    } else if b < a {
        assert(!stands_at(s, part, b));
    }
}

/// Whether an error says that the token is no longer valid, in whatever case it says so.
pub open spec fn calls_for_new_token(message: Seq<char>) -> bool {
    let lower = ascii_lowercased(message);
    ||| holds(lower, "token_invalidated"@)
    ||| holds(lower, "your authentication token has been invalidated"@)
    ||| holds(lower, "401 unauthorized"@)
}

/// Whether an error says that the token is no longer valid.
pub fn should_force_refresh_token(message: &str) -> (r: bool)
    ensures
        r == calls_for_new_token(message@),
{
    let lower = ascii_lower_chars(message);
    contains(&lower, "token_invalidated") || contains(
        &lower,
        "your authentication token has been invalidated",
    ) || contains(&lower, "401 unauthorized")
}

/// How many bytes a text takes.
pub open spec fn byte_count(text: Seq<char>) -> nat {
    (vstd::utf8::encode_utf8(text).len() as usize) as nat
}

/// The message about a reply that is no success: its status, the error code where there is one, and
/// how many bytes it has.
pub open spec fn usage_error(status: Seq<char>, body: Seq<char>) -> Seq<char> {
    let code = match detail_code(body) {
        Some(code) => " [error_code:"@ + code + "]"@,
        None => Seq::empty(),
    };
    "API 返回错误 "@ + status + code + " [body_len:"@ + digits(byte_count(body)) + "]"@
}

/// The message about a reply that is no success.
pub fn build_usage_error(status: &str, body: &str) -> (r: String)
    ensures
        r@ == usage_error(status@, body@),
{
    let mut message = "API 返回错误 ".to_owned();
    message.append(status);
    let ghost before = message@;
    match extract_detail_code_from_body(body) {
        Some(code) => {
            message.append(" [error_code:");
            message.append(code.as_str());
            message.append("]");
            proof {
                assert(message@ =~= before + (" [error_code:"@ + code@ + "]"@));
            }
        },
        None => {
            proof {
                assert(message@ =~= before + Seq::<char>::empty());
            }
        },
    }
    message.append(" [body_len:");
    message.append(unsigned_text(body.len() as u64).as_str());
    message.append("]");
    message
}

// ---------------------------------------------------------------------------------------------
// Replies with JSON
// ---------------------------------------------------------------------------------------------
/// The error that a reply tells of: its message, or else its text, or else the error as it is
/// displayed. A reply whose error is null tells of none.
pub open spec fn told_error(value: JsonModel) -> Option<Seq<char>> {
    match json_get(value, "error"@) {
        None => None,
        Some(JsonModel::Null) => None,
        Some(error) => match (as_text(json_get(error, "message"@)), as_text(Some(error))) {
            (Some(message), _) => Some(message),
            (None, Some(text)) => Some(text),
            (None, None) => Some(json_display(error)),
        },
    }
}

/// The error that a reply tells of.
pub fn api_error_message(value: &Json) -> (r: Option<String>)
    ensures
        r.deep_view() == told_error(value@),
{
    let error = match value.get("error") {
        Some(error) => error,
        None => {
            return None;
        },
    };
    if let Json::Null = error {
        return None;
    }
    if let Some(inner) = error.get("message") {
        if let Some(message) = inner.as_str() {
            return Some(message.to_owned());
        }
    }
    if let Some(text) = error.as_str() {
        return Some(text.to_owned());
    }
    Some(display_json(error))
}

/// The words in which a bad reply is reported.
struct ReplyWords {
    returned: &'static str,
    not_json: &'static str,
    returned_error: &'static str,
}

/// What a reply says: a value, unless it is no success, is no JSON, or tells of an error.
pub open spec fn json_reply(
    returned: Seq<char>,
    not_json: Seq<char>,
    returned_error: Seq<char>,
    url: Seq<char>,
    success: bool,
    status: Seq<char>,
    body: Seq<char>,
) -> Result<JsonModel, Seq<char>> {
    if !success {
        Err(
            url + " "@ + returned + " "@ + status + " [body_len:"@ + digits(byte_count(body))
                + "]"@,
        )
    } else {
        match json_read(body) {
            Err(e) => Err(not_json + ": "@ + e),
            Ok(value) => match told_error(value) {
                Some(message) => Err(url + " "@ + returned_error + ": "@ + message),
                None => Ok(value),
            },
        }
    }
}

fn read_reply(words: &ReplyWords, url: &str, success: bool, status: &str, body: &str) -> (r: Result<
    Json,
    String,
>)
    ensures
        match (
            json_reply(
                words.returned@,
                words.not_json@,
                words.returned_error@,
                url@,
                success,
                status@,
                body@,
            ),
            r,
        ) {
            (Ok(value), Ok(j)) => j@ == value,
            (Err(e), Err(message)) => message@ == e,
            _ => false,
        },
{
    if !success {
        let mut message = url.to_owned();
        message.append(" ");
        message.append(words.returned);
        message.append(" ");
        message.append(status);
        message.append(" [body_len:");
        message.append(unsigned_text(body.len() as u64).as_str());
        message.append("]");
        return Err(message);
    }
    match parse_json(body) {
        Err(e) => {
            let mut message = words.not_json.to_owned();
            message.append(": ");
            message.append(e.as_str());
            Err(message)
        },
        Ok(value) => match api_error_message(&value) {
            Some(told) => {
                let mut message = url.to_owned();
                message.append(" ");
                message.append(words.returned_error);
                message.append(": ");
                message.append(told.as_str());
                Err(message)
            },
            None => Ok(value),
        },
    }
}

/// What the reply of a billing or console service says. `status` is the status as it is displayed.
pub fn read_service_reply(url: &str, success: bool, status: &str, body: &str) -> (r: Result<
    Json,
    String,
>)
    ensures
        match (
            json_reply("返回"@, "解析 JSON 失败"@, "返回错误"@, url@, success, status@, body@),
            r,
        ) {
            (Ok(value), Ok(j)) => j@ == value,
            (Err(e), Err(message)) => message@ == e,
            _ => false,
        },
{
    let words = ReplyWords {
        returned: "返回",
        not_json: "解析 JSON 失败",
        returned_error: "返回错误",
    };
    read_reply(&words, url, success, status, body)
}

/// What the reply of the status page of a console says. `status` is the status as it is displayed.
pub fn read_status_reply(url: &str, success: bool, status: &str, body: &str) -> (r: Result<
    Json,
    String,
>)
    ensures
        match (
            json_reply("杩斿洖"@, "瑙ｆ瀽 JSON 澶辫触"@, "杩斿洖閿欒"@, url@, success, status@, body@),
            r,
        ) {
            (Ok(value), Ok(j)) => j@ == value,
            (Err(e), Err(message)) => message@ == e,
            _ => false,
        },
{
    let words = ReplyWords {
        returned: "杩斿洖",
        not_json: "瑙ｆ瀽 JSON 澶辫触",
        returned_error: "杩斿洖閿欒",
    };
    read_reply(&words, url, success, status, body)
}

// ---------------------------------------------------------------------------------------------
// Laws
// ---------------------------------------------------------------------------------------------
/// Whether an error calls for a new token does not depend on the case of its ASCII letters.
pub proof fn letter_case_does_not_matter(a: Seq<char>, b: Seq<char>)
    requires
        ascii_lowercased(a) == ascii_lowercased(b),
    ensures
        calls_for_new_token(a) == calls_for_new_token(b),
{
}

/// A message holds one error code at most.
pub proof fn error_codes_are_unique(message: Seq<char>, a: Seq<char>, b: Seq<char>)
    requires
        is_code_in(message, a),
        is_code_in(message, b),
    ensures
        a == b,
        has_code(message),
{
    let x = choose|at: int| #[trigger]
        first_at(message, code_marker(), 0, at) && {
            let rest = message.skip(at + code_marker().len());
            let end = first_of(rest, ']');
            end < rest.len() && a == rest.take(end)
        };
    let y = choose|at: int| #[trigger]
        first_at(message, code_marker(), 0, at) && {
            let rest = message.skip(at + code_marker().len());
            let end = first_of(rest, ']');
            end < rest.len() && b == rest.take(end)
        };
    lemma_first_is_unique(message, code_marker(), x, y);
}

/// The error code of a reply is found again in the message about it, unless it holds a closing
/// bracket, or an opening one stands in the status.
pub proof fn error_codes_survive_the_message(status: Seq<char>, body: Seq<char>, code: Seq<char>)
    requires
        detail_code(body) == Some(code),
        forall|i: int| 0 <= i < code.len() ==> code[i] != ']',
        forall|i: int| 0 <= i < status.len() ==> status[i] != '[',
    ensures
        is_code_in(usage_error(status, body), code),
{
    reveal_strlit("API 返回错误 ");
    reveal_strlit(" [error_code:");
    reveal_strlit("[error_code:");
    reveal_strlit("]");
    let marker = code_marker();
    let head = "API 返回错误 "@;
    let tail = " [body_len:"@ + digits(byte_count(body)) + "]"@;
    let message = usage_error(status, body);
    let at = (head.len() + status.len() + 1) as int;
    let with_code = " [error_code:"@ + code + "]"@;
    assert(message =~= head + status + with_code + tail);
    assert forall|i: int| 0 <= i < at implies message[i] != '[' by {
        if i < head.len() {
            assert(message[i] == head[i]);
        } else if i < head.len() + status.len() {
            assert(message[i] == status[i - head.len()]);
        } else {
            assert(message[i] == with_code[0]);
        }
    }
    assert(message.subrange(at, at + marker.len()) =~= marker) by {
        assert forall|i: int| 0 <= i < marker.len() implies message[at + i] == marker[i] by {
            assert(message[at + i] == with_code[1 + i]);
        }
    }
    assert forall|k: int| 0 <= k < at implies !stands_at(message, marker, k) by {
        if stands_at(message, marker, k) {
            assert(message.subrange(k, k + marker.len())[0] == marker[0]);
            assert(message[k] == '[');
        }
    }
    assert(first_at(message, marker, 0, at));
    let rest = message.skip(at + marker.len());
    assert(rest =~= code + "]"@ + tail);
    lemma_first_of(rest, ']', code.len() as int);
    assert(rest.take(code.len() as int) =~= code);
}

proof fn lemma_holds_inside(before: Seq<char>, s: Seq<char>, after: Seq<char>, part: Seq<char>)
    requires
        holds(ascii_lowercased(s), part),
    ensures
        holds(ascii_lowercased(before + s + after), part),
{
    let whole = ascii_lowercased(before + s + after);
    let at = choose|at: int| stands_at(ascii_lowercased(s), part, at);
    let there = before.len() + at;
    assert(whole.subrange(there, there + part.len()) =~= part) by {
        assert forall|i: int| 0 <= i < part.len() implies whole[there + i] == part[i] by {
            assert(ascii_lowercased(s).subrange(at, at + part.len())[i] == part[i]);
            assert((before + s + after)[there + i] == s[at + i]);
        }
    }
    assert(stands_at(whole, part, there));
}

/// A reply that refuses the token calls for a new one, whether its status says so or its error code.
pub proof fn refusals_call_for_new_tokens(status: Seq<char>, body: Seq<char>)
    ensures
        holds(ascii_lowercased(status), "401 unauthorized"@) ==> calls_for_new_token(
            usage_error(status, body),
        ),
        detail_code(body) matches Some(code) ==> holds(ascii_lowercased(code), "token_invalidated"@)
            ==> calls_for_new_token(usage_error(status, body)),
{
    let head = "API 返回错误 "@;
    let tail = " [body_len:"@ + digits(byte_count(body)) + "]"@;
    let message = usage_error(status, body);
    match detail_code(body) {
        Some(code) => {
            let with_code = " [error_code:"@ + code + "]"@;
            assert(message =~= head + status + (with_code + tail));
            assert(message =~= (head + status + " [error_code:"@) + code + ("]"@ + tail));
            if holds(ascii_lowercased(status), "401 unauthorized"@) {
                lemma_holds_inside(head, status, with_code + tail, "401 unauthorized"@);
            }
            if holds(ascii_lowercased(code), "token_invalidated"@) {
                lemma_holds_inside(
                    head + status + " [error_code:"@,
                    code,
                    "]"@ + tail,
                    "token_invalidated"@,
                );
            }
        },
        None => {
            assert(message =~= head + status + tail);
            if holds(ascii_lowercased(status), "401 unauthorized"@) {
                lemma_holds_inside(head, status, tail, "401 unauthorized"@);
            }
        },
    }
}

/// Whether the object under a name says a text under another name.
pub open spec fn says_within(
    fields: Map<Seq<char>, JsonModel>,
    first: Seq<char>,
    second: Seq<char>,
    text: Seq<char>,
) -> bool {
    fields.contains_key(first) && (fields[first] matches JsonModel::Object(inner) && says(
        inner,
        second,
        text,
    ))
}

/// The error code of a reply is the one in its detail, or else the one in its error, or else its own;
/// a reply without any of them, and one that is no JSON, has none.
pub proof fn codes_stand_in_three_places(
    body: Seq<char>,
    fields: Map<Seq<char>, JsonModel>,
    code: Seq<char>,
)
    requires
        json_read(body) == Ok::<JsonModel, Seq<char>>(JsonModel::Object(fields)),
    ensures
        says_within(fields, "detail"@, "code"@, code) ==> detail_code(body) == Some(code),
        (forall|s: Seq<char>| !says_within(fields, "detail"@, "code"@, s)) && says_within(
            fields,
            "error"@,
            "code"@,
            code,
        ) ==> detail_code(body) == Some(code),
        (forall|s: Seq<char>| !says_within(fields, "detail"@, "code"@, s)) && (forall|s: Seq<char>|
            !says_within(fields, "error"@, "code"@, s)) && says(fields, "code"@, code)
            ==> detail_code(body) == Some(code),
        detail_code(body) matches Some(s) ==> says_within(fields, "detail"@, "code"@, s)
            || says_within(fields, "error"@, "code"@, s) || says(fields, "code"@, s),
{
    let d = text_at(JsonModel::Object(fields), "detail"@, "code"@);
    if d is Some {
        assert(says_within(fields, "detail"@, "code"@, d->0));
    }
    let e = text_at(JsonModel::Object(fields), "error"@, "code"@);
    if e is Some {
        assert(says_within(fields, "error"@, "code"@, e->0));
    }
}

/// A reply that is no JSON has no error code.
pub proof fn other_replies_have_no_code(body: Seq<char>)
    requires
        json_read(body) is Err,
    ensures
        detail_code(body) is None,
{
}

/// An error code that stands in a message is read from it: it stands between the marker and the next
/// closing bracket. A message without the marker has none.
pub proof fn codes_are_read_from_messages(before: Seq<char>, code: Seq<char>, after: Seq<char>)
    requires
        forall|i: int| 0 <= i < before.len() ==> before[i] != '[',
        forall|i: int| 0 <= i < code.len() ==> code[i] != ']',
    ensures
        is_code_in(before + "[error_code:"@ + code + seq![']'] + after, code),
        has_code(before + "[error_code:"@ + code + seq![']'] + after),
        !has_code(before),
        !has_code(before + "[error_code:"@ + code),
{
    reveal_strlit("[error_code:");
    let marker = "[error_code:"@;
    assert(code_marker() =~= marker);
    let n = before.len() as int;
    let message = before + marker + code + seq![']'] + after;
    let cut = before + marker + code;
    assert(message.subrange(n, n + marker.len()) =~= marker);
    assert(cut.subrange(n, n + marker.len()) =~= marker);
    assert forall|k: int| 0 <= k < n implies !stands_at(message, marker, k) && !stands_at(
        cut,
        marker,
        k,
    ) && !stands_at(before, marker, k) by {
        assert(message[k] == before[k] && cut[k] == before[k]);
        if stands_at(message, marker, k) {
            assert(message.subrange(k, k + marker.len())[0] == marker[0]);
        }
        if stands_at(cut, marker, k) {
            assert(cut.subrange(k, k + marker.len())[0] == marker[0]);
        }
        if stands_at(before, marker, k) {
            assert(before.subrange(k, k + marker.len())[0] == marker[0]);
        }
    }
    assert(first_at(message, marker, 0, n));
    assert(first_at(cut, marker, 0, n));
    let rest = message.skip(n + marker.len());
    assert(rest =~= code + seq![']'] + after);
    lemma_first_of(rest, ']', code.len() as int);
    assert(rest.take(code.len() as int) =~= code);
    assert forall|at: int| #[trigger] first_at(cut, marker, 0, at) implies at == n by {
        lemma_first_is_unique(cut, marker, at, n);
    }
    assert(cut.skip(n + marker.len()) =~= code);
    lemma_first_of(code, ']', code.len() as int);
}

/// An error calls for a new token exactly where one of three phrases stands in it, in whatever case.
pub proof fn three_phrases_call_for_new_tokens(message: Seq<char>, before: Seq<char>, after: Seq<char>)
    ensures
        ascii_lowercased(message) == before + "token_invalidated"@ + after ==> calls_for_new_token(
            message,
        ),
        ascii_lowercased(message) == before + "your authentication token has been invalidated"@
            + after ==> calls_for_new_token(message),
        ascii_lowercased(message) == before + "401 unauthorized"@ + after ==> calls_for_new_token(
            message,
        ),
        calls_for_new_token(message) ==> exists|a: Seq<char>, b: Seq<char>|
            {
                let whole = ascii_lowercased(message);
                ||| whole == #[trigger] (a + "token_invalidated"@ + b)
                ||| whole == a + "your authentication token has been invalidated"@ + b
                ||| whole == a + "401 unauthorized"@ + b
            },
{
    texts_stand_where_they_were_put(before, "token_invalidated"@, after);
    texts_stand_where_they_were_put(
        before,
        "your authentication token has been invalidated"@,
        after,
    );
    texts_stand_where_they_were_put(before, "401 unauthorized"@, after);
    if calls_for_new_token(message) {
        let whole = ascii_lowercased(message);
        let part = if holds(whole, "token_invalidated"@) {
            "token_invalidated"@
        } else if holds(whole, "your authentication token has been invalidated"@) {
            "your authentication token has been invalidated"@
        } else {
            "401 unauthorized"@
        };
        let at = choose|at: int| stands_at(whole, part, at);
        texts_are_found_where_they_stand(whole, part, at);
        let a = whole.take(at);
        let b = whole.skip(at + part.len());
        assert(whole == a + part + b);
        assert((a + "token_invalidated"@ + b).len() >= 0);
    }
}

/// The message about a reply that is no success names its status, its error code where it has one, and
/// how many bytes it has, in this order.
pub proof fn refused_replies_are_described(status: Seq<char>, body: Seq<char>, code: Seq<char>)
    ensures
        detail_code(body) == Some(code) ==> usage_error(status, body) == "API 返回错误 "@ + status
            + " [error_code:"@ + code + "] [body_len:"@ + digits(byte_count(body)) + "]"@,
        detail_code(body) is None ==> usage_error(status, body) == "API 返回错误 "@ + status
            + " [body_len:"@ + digits(byte_count(body)) + "]"@,
        vstd::utf8::encode_utf8(body).len() <= usize::MAX ==> byte_count(body)
            == vstd::utf8::encode_utf8(body).len(),
{
    reveal_strlit("]");
    reveal_strlit(" [body_len:");
    reveal_strlit("] [body_len:");
    assert("] [body_len:"@ =~= "]"@ + " [body_len:"@);
    let head = "API 返回错误 "@ + status;
    let tail = digits(byte_count(body)) + "]"@;
    if detail_code(body) is Some {
        let c = detail_code(body)->0;
        assert(usage_error(status, body) =~= head + " [error_code:"@ + c + "] [body_len:"@
            + digits(byte_count(body)) + "]"@);
    } else {
        assert(usage_error(status, body) =~= head + " [body_len:"@ + digits(byte_count(body))
            + "]"@);
    }
}

/// The error that a reply tells of is the message in it, or else its text, or else the whole error as it
/// is displayed; a reply without an error, or with one that is null, tells of none.
pub proof fn errors_are_told_in_their_words(
    fields: Map<Seq<char>, JsonModel>,
    inner: Map<Seq<char>, JsonModel>,
    text: Seq<char>,
)
    ensures
        says_within(fields, "error"@, "message"@, text) ==> told_error(JsonModel::Object(fields))
            == Some(text),
        says(fields, "error"@, text) ==> told_error(JsonModel::Object(fields)) == Some(text),
        !fields.contains_key("error"@) || fields["error"@] is Null ==> told_error(
            JsonModel::Object(fields),
        ) is None,
        fields.contains_key("error"@) && !(fields["error"@] is Null) ==> told_error(
            JsonModel::Object(fields),
        ) is Some,
        fields.contains_key("error"@) && fields["error"@] == JsonModel::Object(inner) && !(
        inner.contains_key("message"@) && inner["message"@] is Text) ==> told_error(
            JsonModel::Object(fields),
        ) == Some(json_display(JsonModel::Object(inner))),
{
}

/// A reply is taken exactly where it is a success, is JSON and tells of no error, and what is taken is
/// what was read; otherwise the reason names the address and the status, or what could not be read, or
/// the error that was told.
pub proof fn replies_are_taken_as_they_are(
    returned: Seq<char>,
    not_json: Seq<char>,
    returned_error: Seq<char>,
    url: Seq<char>,
    status: Seq<char>,
    body: Seq<char>,
)
    ensures
        json_reply(returned, not_json, returned_error, url, false, status, body) == Err::<
            JsonModel,
            Seq<char>,
        >(
            url + " "@ + returned + " "@ + status + " [body_len:"@ + digits(byte_count(body))
                + "]"@,
        ),
        json_read(body) matches Err(e) ==> json_reply(
            returned,
            not_json,
            returned_error,
            url,
            true,
            status,
            body,
        ) == Err::<JsonModel, Seq<char>>(not_json + ": "@ + e),
        json_read(body) matches Ok(value) ==> {
            let r = json_reply(returned, not_json, returned_error, url, true, status, body);
            &&& told_error(value) is None ==> r == Ok::<JsonModel, Seq<char>>(value)
            &&& told_error(value) matches Some(message) ==> r == Err::<JsonModel, Seq<char>>(
                url + " "@ + returned_error + ": "@ + message,
            )
        },
{
}

} // verus!
