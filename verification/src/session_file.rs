//! Session files: whose session they hold, and what they say of it in short.
use vstd::prelude::*;

use crate::clock::{
    parse_rfc3339_to_timestamp, system_time_to_timestamp, timestamp_of, with_sign,
};
use crate::content::{extract_message_content, message_content};
use crate::json::{says, text_field, text_or_empty, Json, JsonModel, JsonObject};
use crate::json_text::{json_read, parse_json};
use crate::phrase::{first_filled, first_non_empty, normalize_title, summary_of};
use crate::search::{ascii_lowercased, eq_ignore_ascii_case};
use crate::text::{folded, is_blank, or_else, same_text, trim, trimmed, trimming_is_stable};
use crate::timeline::{has_payload, payload_of};

verus! {

/// Whether a file with that extension is a session file, whatever the case of its letters.
pub fn is_session_file(extension: Option<&str>) -> (r: bool)
    ensures
        r == (extension matches Some(e) && ascii_lowercased(e@) == ascii_lowercased("jsonl"@)),
{
    match extension {
        Some(e) => eq_ignore_ascii_case(e, "jsonl"),
        None => false,
    }
}

// ---------------------------------------------------------------------------------------------
// Whose session a file holds
// ---------------------------------------------------------------------------------------------
/// Whether `c` is a hexadecimal digit, with the letters in lower case.
pub open spec fn is_hex(c: char) -> bool {
    '0' <= c <= '9' || 'a' <= c <= 'f'
}

/// Whether `s` is the identifier of a session: 8, 4, 4, 4 and 12 hexadecimal digits with hyphens
/// between them.
pub open spec fn is_session_id(s: Seq<char>) -> bool {
    &&& s.len() == 36
    &&& forall|i: int|
        0 <= i < 36 ==> if i == 8 || i == 13 || i == 18 || i == 23 {
            #[trigger] s[i] == '-'
        } else {
            is_hex(s[i])
        }
}

/// The first identifier of a session that stands in a text.
pub open spec fn first_session_id(text: Seq<char>) -> Option<Seq<char>>
    decreases text.len(),
{
    if text.len() < 36 {
        None
    } else if is_session_id(text.take(36)) {
        Some(text.take(36))
    } else {
        first_session_id(text.drop_first())
    }
}

/// The regular expression of an identifier of a session.
pub open spec fn session_id_pattern() -> Seq<char> {
    "([0-9a-f]{8}-[0-9a-f]{4}-[0-9a-f]{4}-[0-9a-f]{4}-[0-9a-f]{12})"@
}

/// What the first group of a regular expression captures in a text, where the expression is valid
/// and matches.
pub uninterp spec fn first_capture(pattern: Seq<char>, text: Seq<char>) -> Option<Seq<char>>;

/// `regex::Regex::new` and `regex::Regex::captures`: what the first group captures at the leftmost
/// match. It depends on the expression and the text alone. The expression of an identifier of a
/// session, which is one group, captures the first identifier in the text.
#[verifier::external_body]
fn capture_first(pattern: &str, text: &str) -> (r: Option<String>)
    ensures
        r.deep_view() == first_capture(pattern@, text@),
        pattern@ == session_id_pattern() ==> r.deep_view() == first_session_id(text@),
{
    let expression = regex::Regex::new(pattern).ok()?;
    let captures = expression.captures(text)?;
    captures.get(1).map(|group| group.as_str().to_string())
}

/// The first identifier of a session that stands in a text.
pub fn find_session_id(text: &str) -> (r: Option<String>)
    ensures
        r.deep_view() == first_session_id(text@),
{
    capture_first("([0-9a-f]{8}-[0-9a-f]{4}-[0-9a-f]{4}-[0-9a-f]{4}-[0-9a-f]{12})", text)
}

/// The identifier that the lines of a file give their session. The search ends at the first line
/// that could not be read or is not such a line; a line with a blank identifier is passed over.
pub open spec fn id_in_lines(list: Seq<Option<Seq<char>>>) -> Option<Seq<char>>
    decreases list.len(),
{
    if list.len() == 0 {
        None
    } else {
        match id_on_line(list[0]) {
            Some(id) => if id.len() > 0 {
                Some(id)
            } else {
                id_in_lines(list.drop_first())
            },
            None => None,
        }
    }
}

/// The identifier in the payload on a line, without white space at its ends.
pub open spec fn id_on_line(line: Option<Seq<char>>) -> Option<Seq<char>> {
    match line {
        Some(text) => match json_read(text) {
            Ok(row) => match payload_of(row) {
                Some(payload) => match text_field(payload, "id"@) {
                    Some(id) => Some(trimmed(id)),
                    None => None,
                },
                None => None,
            },
            Err(_) => None,
        },
        None => None,
    }
}

/// The first lines of a list, at most `n` of them.
pub open spec fn at_most<A>(list: Seq<A>, n: int) -> Seq<A> {
    if list.len() <= n {
        list
    } else {
        list.take(n)
    }
}

/// The identifier of the session that a file holds: the one in the name of the file, or else the one
/// in its first five lines. `list` is missing where the file could not be opened.
pub open spec fn file_session_id(
    file_name: Option<Seq<char>>,
    list: Option<Seq<Option<Seq<char>>>>,
) -> Option<Seq<char>> {
    let in_name = match file_name {
        Some(name) => first_session_id(name),
        None => None,
    };
    match (in_name, list) {
        (Some(id), _) => Some(id),
        (None, Some(list)) => id_in_lines(at_most(list, 5)),
        (None, None) => None,
    }
}

fn read_id_on_line(line: &Option<String>) -> (r: Option<String>)
    ensures
        r.deep_view() == id_on_line(line.deep_view()),
{
    let text = match line {
        Some(text) => text,
        None => {
            return None;
        },
    };
    let row = match parse_json(text.as_str()) {
        Ok(row) => row,
        Err(_) => {
            return None;
        },
    };
    match payload_fields(&row) {
        Some(payload) => match payload.get_text("id") {
            Some(id) => Some(trim(id).to_owned()),
            None => None,
        },
        None => None,
    }
}

/// The fields of the payload of a line.
pub fn payload_fields(row: &Json) -> (r: Option<&JsonObject>)
    ensures
        match r {
            Some(payload) => payload_of(row@) == Some(payload@),
            None => payload_of(row@) is None,
        },
{
    match row.get("payload") {
        Some(value) => value.as_object(),
        None => None,
    }
}

/// The identifier of the session that a file holds. `file_name` is missing where the file has no
/// name that is text, and `first_lines` where it could not be opened; a line is missing where it
/// could not be read.
pub fn extract_session_id(file_name: Option<&str>, first_lines: Option<&Vec<Option<String>>>) -> (r:
    Option<String>)
    ensures
        r.deep_view() == file_session_id(file_name.deep_view(), first_lines.deep_view()),
{
    if let Some(name) = file_name {
        if let Some(id) = find_session_id(name) {
            return Some(id);
        }
    }
    let list = match first_lines {
        Some(list) => list,
        None => {
            return None;
        },
    };
    let ghost all = at_most(list.deep_view(), 5);
    let mut i: usize = 0;
    proof {
        assert(all.skip(0) =~= all);
    }
    while i < list.len() && i < 5
        invariant
            all == at_most(list.deep_view(), 5),
            i <= all.len(),
            file_session_id(file_name.deep_view(), first_lines.deep_view()) == id_in_lines(all),
            id_in_lines(all) == id_in_lines(all.skip(i as int)),
        decreases list@.len() - i,
    {
        proof {
            assert(all.skip(i as int).drop_first() =~= all.skip(i + 1));
            assert(all.skip(i as int)[0] == list@[i as int].deep_view());
        }
        match read_id_on_line(&list[i]) {
            Some(id) => {
                if !id.as_str().is_empty() {
                    return Some(id);
                }
            },
            None => {
                return None;
            },
        }
        i += 1;
    }
    None
}

// ---------------------------------------------------------------------------------------------
// What a file says in short
// ---------------------------------------------------------------------------------------------
/// What a session file says of its session.
#[derive(Debug, Clone, PartialEq, Eq)]
pub struct SessionFileSummary {
    pub title: String,
    pub cwd: String,
    pub model_provider: String,
    pub created_at: Option<i64>,
    pub updated_at: Option<i64>,
}

/// What is known of a session from its file.
#[verifier::ext_equal]
pub struct SummaryModel {
    pub title: Seq<char>,
    pub cwd: Seq<char>,
    pub model_provider: Seq<char>,
    pub created_at: Option<i64>,
    pub updated_at: Option<i64>,
}

impl DeepView for SessionFileSummary {
    type V = SummaryModel;

    open spec fn deep_view(&self) -> SummaryModel {
        SummaryModel {
            title: self.title@,
            cwd: self.cwd@,
            model_provider: self.model_provider@,
            created_at: self.created_at,
            updated_at: self.updated_at,
        }
    }
}

/// A session file as it was read: when it was created and changed, in seconds since 1970 began, and
/// its lines. A time is missing where the file system has none or it is before 1970, and a line
/// where it could not be read.
#[derive(Debug, Clone, PartialEq, Eq)]
pub struct FileContent {
    pub created: Option<u64>,
    pub modified: Option<u64>,
    pub lines: Vec<Option<String>>,
}

/// What was read of a session file.
#[verifier::ext_equal]
pub struct ContentModel {
    pub created: Option<u64>,
    pub modified: Option<u64>,
    pub lines: Seq<Option<Seq<char>>>,
}

impl DeepView for FileContent {
    type V = ContentModel;

    open spec fn deep_view(&self) -> ContentModel {
        ContentModel {
            created: self.created,
            modified: self.modified,
            lines: self.lines.deep_view(),
        }
    }
}

/// What was found so far in the lines of a file.
#[verifier::ext_equal]
pub struct Findings {
    pub title: Seq<char>,
    pub cwd: Seq<char>,
    pub model_provider: Seq<char>,
    pub created_hint: Option<i64>,
}

/// Nothing found yet.
pub open spec fn no_findings() -> Findings {
    Findings {
        title: Seq::empty(),
        cwd: Seq::empty(),
        model_provider: Seq::empty(),
        created_hint: None,
    }
}

/// Whether there is nothing more to look for.
pub open spec fn all_found(f: Findings) -> bool {
    f.title.len() > 0 && f.cwd.len() > 0 && f.model_provider.len() > 0
}

/// The title in the head of a session.
pub open spec fn meta_title(payload: Map<Seq<char>, JsonModel>) -> Seq<char> {
    match first_filled(
        seq![text_field(payload, "thread_name"@), text_field(payload, "title"@)],
    ) {
        Some(s) => s,
        None => Seq::empty(),
    }
}

/// The time in the head of a session.
pub open spec fn meta_time(payload: Map<Seq<char>, JsonModel>) -> Option<i64> {
    match text_field(payload, "timestamp"@) {
        Some(s) => timestamp_of(s),
        None => None,
    }
}

/// What is found once a payload is read too. Nothing that was found before is replaced.
pub open spec fn found_in_payload(f: Findings, payload: Map<Seq<char>, JsonModel>) -> Findings {
    let payload_type = text_or_empty(payload, "type"@);
    if payload_type == "session_meta"@ {
        Findings {
            title: or_else(f.title, meta_title(payload)),
            cwd: or_else(f.cwd, trimmed(text_or_empty(payload, "cwd"@))),
            model_provider: or_else(
                f.model_provider,
                trimmed(text_or_empty(payload, "model_provider"@)),
            ),
            created_hint: match f.created_hint {
                Some(t) => Some(t),
                None => meta_time(payload),
            },
        }
    } else if payload_type == "user_message"@ {
        Findings {
            title: or_else(
                f.title,
                match text_field(payload, "message"@) {
                    Some(message) => summary_of(message, 120),
                    None => Seq::empty(),
                },
            ),
            ..f
        }
    } else if payload_type == "message"@ && text_field(payload, "role"@) == Some("user"@) {
        Findings { title: or_else(f.title, summary_of(message_content(payload), 120)), ..f }
    } else {
        f
    }
}

/// What is found once a line is read too.
pub open spec fn found_on_line(f: Findings, line: Option<Seq<char>>) -> Findings {
    match line {
        Some(text) => if trimmed(text).len() == 0 {
            f
        } else {
            match json_read(trimmed(text)) {
                Ok(row) => match payload_of(row) {
                    Some(payload) => found_in_payload(f, payload),
                    None => f,
                },
                Err(_) => f,
            }
        },
        None => f,
    }
}

/// What is found in the lines, read one by one until there is nothing more to look for.
pub open spec fn found_in_lines(f: Findings, list: Seq<Option<Seq<char>>>) -> Findings
    decreases list.len(),
{
    if list.len() == 0 || all_found(f) {
        f
    } else {
        found_in_lines(found_on_line(f, list[0]), list.drop_first())
    }
}

/// A file time as a timestamp.
pub open spec fn file_time(seconds: Option<u64>) -> Option<i64> {
    match seconds {
        Some(n) => Some(with_sign(n) as i64),
        None => None,
    }
}

/// `first`, or else `second`.
pub open spec fn time_or(first: Option<i64>, second: Option<i64>) -> Option<i64> {
    match first {
        Some(t) => Some(t),
        None => second,
    }
}

/// What a session file says of its session. A session without a title has its identifier for one;
/// the time in the file goes before the times that the file system gives the file.
pub open spec fn file_summary(content: ContentModel, session_id: Seq<char>) -> SummaryModel {
    let found = found_in_lines(no_findings(), content.lines);
    SummaryModel {
        title: or_else(found.title, session_id),
        cwd: found.cwd,
        model_provider: found.model_provider,
        created_at: time_or(
            found.created_hint,
            time_or(file_time(content.created), file_time(content.modified)),
        ),
        updated_at: file_time(content.modified),
    }
}

struct Found {
    title: String,
    cwd: String,
    model_provider: String,
    created_hint: Option<i64>,
}

impl View for Found {
    type V = Findings;

    closed spec fn view(&self) -> Findings {
        Findings {
            title: self.title@,
            cwd: self.cwd@,
            model_provider: self.model_provider@,
            created_hint: self.created_hint,
        }
    }
}

fn read_meta(found: &mut Found, payload: &JsonObject)
    requires
        text_or_empty(payload@, "type"@) == "session_meta"@,
    ensures
        final(found)@ == found_in_payload(old(found)@, payload@),
{
    if found.title.as_str().is_empty() {
        let names: [Option<&str>; 2] = [payload.get_text("thread_name"), payload.get_text("title")];
        proof {
            assert(names.deep_view() =~= seq![
                text_field(payload@, "thread_name"@),
                text_field(payload@, "title"@),
            ]);
        }
        found.title =
        match first_non_empty(&names) {
            Some(title) => title.to_owned(),
            None => String::new(),
        };
    }
    if found.cwd.as_str().is_empty() {
        found.cwd = trim(payload.get_text_or_empty("cwd")).to_owned();
    }
    if found.model_provider.as_str().is_empty() {
        found.model_provider = trim(payload.get_text_or_empty("model_provider")).to_owned();
    }
    if found.created_hint.is_none() {
        found.created_hint =
        match payload.get_text("timestamp") {
            Some(text) => parse_rfc3339_to_timestamp(text),
            None => None,
        };
    }
}

fn read_payload(found: &mut Found, payload: &JsonObject)
    ensures
        final(found)@ == found_in_payload(old(found)@, payload@),
{
    let payload_type = payload.get_text_or_empty("type");
    if same_text(payload_type, "session_meta") {
        read_meta(found, payload);
    } else if same_text(payload_type, "user_message") {
        if found.title.as_str().is_empty() {
            if let Some(message) = payload.get_text("message") {
                found.title = normalize_title(message);
            }
        }
    } else if same_text(payload_type, "message") {
        let by_user = match payload.get_text("role") {
            Some(role) => same_text(role, "user"),
            None => false,
        };
        if by_user && found.title.as_str().is_empty() {
            found.title = normalize_title(extract_message_content(payload).as_str());
        }
    }
}

fn read_found_line(found: &mut Found, line: &Option<String>)
    ensures
        final(found)@ == found_on_line(old(found)@, line.deep_view()),
{
    if let Some(text) = line {
        let short = trim(text.as_str());
        if !short.is_empty() {
            if let Ok(row) = parse_json(short) {
                if let Some(payload) = payload_fields(&row) {
                    read_payload(found, payload);
                }
            }
        }
    }
}

/// What a session file says of its session.
pub fn read_session_file_summary(content: &FileContent, session_id: &str) -> (r: SessionFileSummary)
    ensures
        r.deep_view() == file_summary(content.deep_view(), session_id@),
{
    let ghost all = content.lines.deep_view();
    let modified_at: Option<i64> = system_time_to_timestamp(content.modified);
    let created_at: Option<i64> = match system_time_to_timestamp(content.created) {
        Some(t) => Some(t),
        None => modified_at,
    };
    let mut found = Found {
        title: String::new(),
        cwd: String::new(),
        model_provider: String::new(),
        created_hint: None,
    };
    let mut i: usize = 0;
    proof {
        assert(all.skip(0) =~= all);
        assert(found@ =~= no_findings());
    }
    while i < content.lines.len() && !(!found.title.as_str().is_empty()
        && !found.cwd.as_str().is_empty() && !found.model_provider.as_str().is_empty())
        invariant
            all == content.lines.deep_view(),
            i <= content.lines@.len(),
            found_in_lines(no_findings(), all) == found_in_lines(found@, all.skip(i as int)),
        decreases content.lines@.len() - i,
    {
        proof {
            assert(all.skip(i as int).drop_first() =~= all.skip(i + 1));
            assert(all.skip(i as int)[0] == content.lines@[i as int].deep_view());
        }
        read_found_line(&mut found, &content.lines[i]);
        i += 1;
    }
    SessionFileSummary {
        title: if found.title.as_str().is_empty() {
            session_id.to_owned()
        } else {
            found.title
        },
        cwd: found.cwd,
        model_provider: found.model_provider,
        created_at: match found.created_hint {
            Some(t) => Some(t),
            None => created_at,
        },
        updated_at: modified_at,
    }
}

// ---------------------------------------------------------------------------------------------
// Laws
// ---------------------------------------------------------------------------------------------
/// What was found first stays: a title, a directory, a provider or a time that was found in some
/// lines is what the file says, whatever lines follow.
pub proof fn first_findings_stay(f: Findings, list: Seq<Option<Seq<char>>>)
    ensures
        f.title.len() > 0 ==> found_in_lines(f, list).title == f.title,
        f.cwd.len() > 0 ==> found_in_lines(f, list).cwd == f.cwd,
        f.model_provider.len() > 0 ==> found_in_lines(f, list).model_provider == f.model_provider,
        f.created_hint is Some ==> found_in_lines(f, list).created_hint == f.created_hint,
    decreases list.len(),
{
    if list.len() > 0 && !all_found(f) {
        first_findings_stay(found_on_line(f, list[0]), list.drop_first());
    }
}

/// A session always has a title, as long as its identifier is not empty.
pub proof fn sessions_have_titles(content: ContentModel, session_id: Seq<char>)
    requires
        session_id.len() > 0,
    ensures
        file_summary(content, session_id).title.len() > 0,
{
}

/// Whether a line that could be read holds that payload.
pub open spec fn line_holds(line: Option<Seq<char>>, p: Map<Seq<char>, JsonModel>) -> bool {
    line matches Some(text) && !is_blank(text) && (json_read(trimmed(text)) matches Ok(row)
        && has_payload(row, p))
}

/// Whether a line is a head that says something under a name: what, without white space at its ends.
pub open spec fn head_says(line: Option<Seq<char>>, name: Seq<char>, value: Seq<char>) -> bool {
    &&& !is_blank(value)
    &&& exists|p: Map<Seq<char>, JsonModel>, text: Seq<char>|
        {
            &&& #[trigger] line_holds(line, p)
            &&& says(p, "type"@, "session_meta"@)
            &&& #[trigger] says(p, name, text)
            &&& value == trimmed(text)
        }
}

/// Whether no line is a head that says something under a name.
pub open spec fn no_head_says(list: Seq<Option<Seq<char>>>, name: Seq<char>) -> bool {
    forall|i: int, value: Seq<char>|
        0 <= i < list.len() ==> !#[trigger] head_says(list[i], name, value)
}

/// What a line gives its session for a title: the name or else the title in a head; what the user
/// said in short.
pub open spec fn line_titles(line: Option<Seq<char>>, title: Seq<char>) -> bool {
    &&& title.len() > 0
    &&& exists|p: Map<Seq<char>, JsonModel>|
        {
            &&& #[trigger] line_holds(line, p)
            &&& ({
                ||| says(p, "type"@, "session_meta"@) && title_in_head(p, title)
                ||| says(p, "type"@, "user_message"@) && exists|text: Seq<char>|
                    #[trigger] says(p, "message"@, text) && title == summary_of(text, 120)
                ||| says(p, "type"@, "message"@) && says(p, "role"@, "user"@) && title
                    == summary_of(message_content(p), 120)
            })
        }
}

/// Whether a head has that title: the name of the thread, or else its title.
pub open spec fn title_in_head(p: Map<Seq<char>, JsonModel>, title: Seq<char>) -> bool {
    ||| exists|text: Seq<char>| #[trigger] says(p, "thread_name"@, text) && title == trimmed(text)
    ||| {
        &&& forall|text: Seq<char>| #[trigger] says(p, "thread_name"@, text) ==> is_blank(text)
        &&& exists|text: Seq<char>| #[trigger] says(p, "title"@, text) && title == trimmed(text)
    }
}

/// Whether no line gives its session a title.
pub open spec fn no_line_titles(list: Seq<Option<Seq<char>>>) -> bool {
    forall|i: int, title: Seq<char>|
        0 <= i < list.len() ==> !#[trigger] line_titles(list[i], title)
}

/// Whether a line is a head with that time.
pub open spec fn head_is_of(line: Option<Seq<char>>, time: i64) -> bool {
    exists|p: Map<Seq<char>, JsonModel>, text: Seq<char>|
        {
            &&& #[trigger] line_holds(line, p)
            &&& says(p, "type"@, "session_meta"@)
            &&& #[trigger] says(p, "timestamp"@, text)
            &&& timestamp_of(text) == Some(time)
        }
}

/// Whether no line is a head with a time.
pub open spec fn no_head_has_time(list: Seq<Option<Seq<char>>>) -> bool {
    forall|i: int, time: i64| 0 <= i < list.len() ==> !#[trigger] head_is_of(list[i], time)
}

proof fn lemma_types_differ()
    ensures
        "session_meta"@ != "user_message"@,
        "session_meta"@ != "message"@,
        "user_message"@ != "message"@,
        "session_meta"@.len() > 0,
        "user_message"@.len() > 0,
        "message"@.len() > 0,
{
    reveal_strlit("session_meta");
    reveal_strlit("user_message");
    reveal_strlit("message");
    assert("session_meta"@[0] != "user_message"@[0]);
}

proof fn lemma_line_payload(line: Option<Seq<char>>) -> (p: Map<Seq<char>, JsonModel>)
    ensures
        (exists|q: Map<Seq<char>, JsonModel>| #[trigger] line_holds(line, q)) ==> line_holds(line, p),
        line_holds(line, p) ==> forall|f: Findings| #[trigger]
            found_on_line(f, line) == found_in_payload(f, p),
        !line_holds(line, p) ==> forall|f: Findings| #[trigger] found_on_line(f, line) == f,
{
    let p = match line {
        Some(text) => match json_read(trimmed(text)) {
            Ok(row) => match payload_of(row) {
                Some(payload) => payload,
                None => Map::empty(),
            },
            Err(_) => Map::empty(),
        },
        None => Map::empty(),
    };
    p
}

proof fn lemma_head_on_line(f: Findings, line: Option<Seq<char>>)
    ensures
        ({
            let g = found_on_line(f, line);
            &&& f.cwd.len() == 0 && g.cwd.len() > 0 ==> head_says(line, "cwd"@, g.cwd)
            &&& f.cwd.len() == 0 && g.cwd.len() == 0 ==> forall|v: Seq<char>|
                !#[trigger] head_says(line, "cwd"@, v)
            &&& f.model_provider.len() == 0 && g.model_provider.len() > 0 ==> head_says(
                line,
                "model_provider"@,
                g.model_provider,
            )
            &&& f.model_provider.len() == 0 && g.model_provider.len() == 0 ==> forall|
                v: Seq<char>,
            |
                !#[trigger] head_says(line, "model_provider"@, v)
            &&& f.cwd.len() > 0 ==> g.cwd == f.cwd
            &&& f.model_provider.len() > 0 ==> g.model_provider == f.model_provider
        }),
{
    lemma_types_differ();
    let p = lemma_line_payload(line);
    let g = found_on_line(f, line);
    assert(trimmed(Seq::<char>::empty()).len() == 0);
    if line_holds(line, p) && says(p, "type"@, "session_meta"@) {
        let cwd = text_or_empty(p, "cwd"@);
        let provider = text_or_empty(p, "model_provider"@);
        trimming_is_stable(cwd);
        trimming_is_stable(provider);
        if !is_blank(cwd) {
            assert(says(p, "cwd"@, cwd));
        }
        if !is_blank(provider) {
            assert(says(p, "model_provider"@, provider));
        }
    }
    assert forall|v: Seq<char>| f.cwd.len() == 0 && g.cwd.len() == 0 implies !#[trigger] head_says(
        line,
        "cwd"@,
        v,
    ) by {
        if head_says(line, "cwd"@, v) {
            let (q, text) = choose|q: Map<Seq<char>, JsonModel>, text: Seq<char>|
                {
                    &&& #[trigger] line_holds(line, q)
                    &&& says(q, "type"@, "session_meta"@)
                    &&& #[trigger] says(q, "cwd"@, text)
                    &&& v == trimmed(text)
                };
            assert(q == p);
            trimming_is_stable(text);
        }
    }
    assert forall|v: Seq<char>|
        f.model_provider.len() == 0 && g.model_provider.len() == 0 implies !#[trigger] head_says(
        line,
        "model_provider"@,
        v,
    ) by {
        if head_says(line, "model_provider"@, v) {
            let (q, text) = choose|q: Map<Seq<char>, JsonModel>, text: Seq<char>|
                {
                    &&& #[trigger] line_holds(line, q)
                    &&& says(q, "type"@, "session_meta"@)
                    &&& #[trigger] says(q, "model_provider"@, text)
                    &&& v == trimmed(text)
                };
            assert(q == p);
            trimming_is_stable(text);
        }
    }
}

proof fn lemma_head_says_one_thing(
    line: Option<Seq<char>>,
    name: Seq<char>,
    a: Seq<char>,
    b: Seq<char>,
)
    requires
        head_says(line, name, a),
        head_says(line, name, b),
    ensures
        a == b,
{
}

proof fn lemma_first_head_says(
    f: Findings,
    list: Seq<Option<Seq<char>>>,
    n: int,
    value: Seq<char>,
)
    requires
        0 <= n < list.len(),
    ensures
        f.cwd.len() == 0 && no_head_says(list.take(n), "cwd"@) && head_says(
            list[n],
            "cwd"@,
            value,
        ) ==> found_in_lines(f, list).cwd == value,
        f.model_provider.len() == 0 && no_head_says(list.take(n), "model_provider"@) && head_says(
            list[n],
            "model_provider"@,
            value,
        ) ==> found_in_lines(f, list).model_provider == value,
    decreases list.len(),
{
    let g = found_on_line(f, list[0]);
    let rest = list.drop_first();
    lemma_head_on_line(f, list[0]);
    first_findings_stay(g, rest);
    if n == 0 {
        if f.cwd.len() == 0 && head_says(list[0], "cwd"@, value) {
            lemma_head_says_one_thing(list[0], "cwd"@, value, g.cwd);
        }
        if f.model_provider.len() == 0 && head_says(list[0], "model_provider"@, value) {
            lemma_head_says_one_thing(list[0], "model_provider"@, value, g.model_provider);
        }
    } else {
        assert(list.take(n)[0] == list[0]);
        assert(no_head_says(list.take(n), "cwd"@) ==> no_head_says(rest.take(n - 1), "cwd"@)) by {
            assert forall|i: int, v: Seq<char>|
                no_head_says(list.take(n), "cwd"@) && 0 <= i < rest.take(n - 1).len() implies !(
            #[trigger] head_says(rest.take(n - 1)[i], "cwd"@, v)) by {
                assert(!head_says(list.take(n)[i + 1], "cwd"@, v));
            }
        }
        assert(no_head_says(list.take(n), "model_provider"@) ==> no_head_says(
            rest.take(n - 1),
            "model_provider"@,
        )) by {
            assert forall|i: int, v: Seq<char>|
                no_head_says(list.take(n), "model_provider"@) && 0 <= i < rest.take(
                    n - 1,
                ).len() implies !(#[trigger] head_says(rest.take(n - 1)[i], "model_provider"@, v)) by {
                assert(!head_says(list.take(n)[i + 1], "model_provider"@, v));
            }
        }
        if f.cwd.len() == 0 && no_head_says(list.take(n), "cwd"@) {
            assert(!head_says(list.take(n)[0], "cwd"@, g.cwd));
        }
        if f.model_provider.len() == 0 && no_head_says(list.take(n), "model_provider"@) {
            assert(!head_says(list.take(n)[0], "model_provider"@, g.model_provider));
        }
        lemma_first_head_says(g, rest, n - 1, value);
    }
}

proof fn lemma_no_head_says(f: Findings, list: Seq<Option<Seq<char>>>)
    ensures
        f.cwd.len() == 0 && no_head_says(list, "cwd"@) ==> found_in_lines(f, list).cwd.len() == 0,
        f.model_provider.len() == 0 && no_head_says(list, "model_provider"@) ==> found_in_lines(
            f,
            list,
        ).model_provider.len() == 0,
    decreases list.len(),
{
    if list.len() > 0 {
        let g = found_on_line(f, list[0]);
        let rest = list.drop_first();
        lemma_head_on_line(f, list[0]);
        assert(no_head_says(list, "cwd"@) ==> no_head_says(rest, "cwd"@)) by {
            assert forall|i: int, v: Seq<char>|
                no_head_says(list, "cwd"@) && 0 <= i < rest.len() implies !(#[trigger] head_says(
                rest[i],
                "cwd"@,
                v,
            )) by {
                assert(!head_says(list[i + 1], "cwd"@, v));
            }
        }
        assert(no_head_says(list, "model_provider"@) ==> no_head_says(rest, "model_provider"@)) by {
            assert forall|i: int, v: Seq<char>|
                no_head_says(list, "model_provider"@) && 0 <= i < rest.len() implies !(
            #[trigger] head_says(rest[i], "model_provider"@, v)) by {
                assert(!head_says(list[i + 1], "model_provider"@, v));
            }
        }
        if f.cwd.len() == 0 && no_head_says(list, "cwd"@) {
            assert(!head_says(list[0], "cwd"@, g.cwd));
        }
        if f.model_provider.len() == 0 && no_head_says(list, "model_provider"@) {
            assert(!head_says(list[0], "model_provider"@, g.model_provider));
        }
        lemma_no_head_says(g, rest);
    }
}

/// The directory of a session is that of the first head in its file that names one, and its provider
/// is that of the first head that names one; where no head does, there is none.
pub proof fn the_first_head_says_where(
    content: ContentModel,
    session_id: Seq<char>,
    n: int,
    value: Seq<char>,
)
    ensures
        0 <= n < content.lines.len() && no_head_says(content.lines.take(n), "cwd"@) && head_says(
            content.lines[n],
            "cwd"@,
            value,
        ) ==> file_summary(content, session_id).cwd == value,
        no_head_says(content.lines, "cwd"@) ==> file_summary(content, session_id).cwd.len() == 0,
        0 <= n < content.lines.len() && no_head_says(content.lines.take(n), "model_provider"@)
            && head_says(content.lines[n], "model_provider"@, value) ==> file_summary(
            content,
            session_id,
        ).model_provider == value,
        no_head_says(content.lines, "model_provider"@) ==> file_summary(
            content,
            session_id,
        ).model_provider.len() == 0,
{
    if 0 <= n < content.lines.len() {
        lemma_first_head_says(no_findings(), content.lines, n, value);
    }
    lemma_no_head_says(no_findings(), content.lines);
}

proof fn lemma_title_on_line(f: Findings, line: Option<Seq<char>>, title: Seq<char>)
    ensures
        ({
            let g = found_on_line(f, line);
            &&& f.title.len() == 0 && g.title.len() > 0 ==> line_titles(line, g.title)
            &&& f.title.len() == 0 && line_titles(line, title) ==> g.title == title
            &&& f.title.len() > 0 ==> g.title == f.title
        }),
{
    lemma_types_differ();
    let p = lemma_line_payload(line);
    let g = found_on_line(f, line);
    assert(f.title.len() == 0 && !line_holds(line, p) ==> g == f);
    assert(folded(Seq::<char>::empty()).len() == 0);
    if line_holds(line, p) && says(p, "type"@, "session_meta"@) {
        let names = seq![text_field(p, "thread_name"@), text_field(p, "title"@)];
        reveal_with_fuel(first_filled, 3);
        assert(names.drop_first() =~= seq![text_field(p, "title"@)]);
        if text_field(p, "thread_name"@) is Some {
            assert(says(p, "thread_name"@, text_field(p, "thread_name"@)->0));
        }
        if text_field(p, "title"@) is Some {
            assert(says(p, "title"@, text_field(p, "title"@)->0));
        }
    } else if line_holds(line, p) && says(p, "type"@, "user_message"@) {
        if text_field(p, "message"@) is Some {
            assert(says(p, "message"@, text_field(p, "message"@)->0));
        }
    }
    if line_titles(line, title) {
        let q = choose|q: Map<Seq<char>, JsonModel>|
            {
                &&& #[trigger] line_holds(line, q)
                &&& ({
                    ||| says(q, "type"@, "session_meta"@) && title_in_head(q, title)
                    ||| says(q, "type"@, "user_message"@) && exists|text: Seq<char>|
                        #[trigger] says(q, "message"@, text) && title == summary_of(text, 120)
                    ||| says(q, "type"@, "message"@) && says(q, "role"@, "user"@) && title
                        == summary_of(message_content(q), 120)
                })
            };
        assert(q == p);
    }
}

proof fn lemma_first_title(f: Findings, list: Seq<Option<Seq<char>>>, n: int, title: Seq<char>)
    requires
        0 <= n < list.len(),
        f.title.len() == 0,
        no_line_titles(list.take(n)),
        line_titles(list[n], title),
    ensures
        found_in_lines(f, list).title == title,
    decreases list.len(),
{
    let g = found_on_line(f, list[0]);
    let rest = list.drop_first();
    lemma_title_on_line(f, list[0], title);
    first_findings_stay(g, rest);
    if n > 0 {
        assert(list.take(n)[0] == list[0]);
        assert(!line_titles(list.take(n)[0], g.title));
        assert forall|i: int, v: Seq<char>| 0 <= i < rest.take(n - 1).len() implies !(
        #[trigger] line_titles(rest.take(n - 1)[i], v)) by {
            assert(!line_titles(list.take(n)[i + 1], v));
        }
        lemma_first_title(g, rest, n - 1, title);
    }
}

proof fn lemma_no_title(f: Findings, list: Seq<Option<Seq<char>>>)
    requires
        f.title.len() == 0,
        no_line_titles(list),
    ensures
        found_in_lines(f, list).title.len() == 0,
    decreases list.len(),
{
    if list.len() > 0 {
        let g = found_on_line(f, list[0]);
        let rest = list.drop_first();
        lemma_title_on_line(f, list[0], g.title);
        assert(!line_titles(list[0], g.title));
        assert forall|i: int, v: Seq<char>| 0 <= i < rest.len() implies !(#[trigger] line_titles(
            rest[i],
            v,
        )) by {
            assert(!line_titles(list[i + 1], v));
        }
        lemma_no_title(g, rest);
    }
}

/// The title of a session is what the first line that gives it one gives it; where no line does, it is
/// the identifier of the session.
pub proof fn the_first_line_titles_the_session(
    content: ContentModel,
    session_id: Seq<char>,
    n: int,
    title: Seq<char>,
)
    ensures
        0 <= n < content.lines.len() && no_line_titles(content.lines.take(n)) && line_titles(
            content.lines[n],
            title,
        ) ==> file_summary(content, session_id).title == title,
        no_line_titles(content.lines) ==> file_summary(content, session_id).title == session_id,
{
    if 0 <= n < content.lines.len() && no_line_titles(content.lines.take(n)) && line_titles(
        content.lines[n],
        title,
    ) {
        lemma_first_title(no_findings(), content.lines, n, title);
    }
    if no_line_titles(content.lines) {
        lemma_no_title(no_findings(), content.lines);
    }
}

proof fn lemma_time_on_line(f: Findings, line: Option<Seq<char>>, time: i64)
    requires
        f.created_hint is None,
    ensures
        found_on_line(f, line).created_hint matches Some(t) ==> head_is_of(line, t),
        head_is_of(line, time) ==> found_on_line(f, line).created_hint == Some(time),
{
    lemma_types_differ();
    let p = lemma_line_payload(line);
    if line_holds(line, p) && says(p, "type"@, "session_meta"@) {
        if text_field(p, "timestamp"@) is Some {
            assert(says(p, "timestamp"@, text_field(p, "timestamp"@)->0));
        }
    }
    if head_is_of(line, time) {
        let (q, text) = choose|q: Map<Seq<char>, JsonModel>, text: Seq<char>|
            {
                &&& #[trigger] line_holds(line, q)
                &&& says(q, "type"@, "session_meta"@)
                &&& #[trigger] says(q, "timestamp"@, text)
                &&& timestamp_of(text) == Some(time)
            };
        assert(q == p);
    }
}

proof fn lemma_no_time(f: Findings, list: Seq<Option<Seq<char>>>)
    requires
        f.created_hint is None,
        no_head_has_time(list),
    ensures
        found_in_lines(f, list).created_hint is None,
    decreases list.len(),
{
    if list.len() > 0 {
        let g = found_on_line(f, list[0]);
        let rest = list.drop_first();
        lemma_time_on_line(f, list[0], 0);
        if g.created_hint is Some {
            assert(!head_is_of(list[0], g.created_hint->0));
        }
        assert forall|i: int, v: i64| 0 <= i < rest.len() implies !(#[trigger] head_is_of(
            rest[i],
            v,
        )) by {
            assert(!head_is_of(list[i + 1], v));
        }
        lemma_no_time(g, rest);
    }
}

proof fn lemma_first_time(f: Findings, list: Seq<Option<Seq<char>>>, n: int, time: i64)
    requires
        0 <= n < list.len(),
        f.created_hint is None,
        no_head_has_time(list.take(n)),
        head_is_of(list[n], time),
        (f.title.len() == 0 && no_line_titles(list.take(n))) || (f.cwd.len() == 0 && no_head_says(
            list.take(n),
            "cwd"@,
        )) || (f.model_provider.len() == 0 && no_head_says(list.take(n), "model_provider"@)),
    ensures
        found_in_lines(f, list).created_hint == Some(time),
    decreases list.len(),
{
    let g = found_on_line(f, list[0]);
    let rest = list.drop_first();
    lemma_time_on_line(f, list[0], time);
    first_findings_stay(g, rest);
    if n > 0 {
        let first = list.take(n);
        let later = rest.take(n - 1);
        assert(first[0] == list[0]);
        lemma_title_on_line(f, list[0], g.title);
        lemma_head_on_line(f, list[0]);
        assert(no_line_titles(first) ==> !line_titles(first[0], g.title));
        assert(no_head_says(first, "cwd"@) ==> !head_says(first[0], "cwd"@, g.cwd));
        assert(no_head_says(first, "model_provider"@) ==> !head_says(
            first[0],
            "model_provider"@,
            g.model_provider,
        ));
        if g.created_hint is Some {
            assert(!head_is_of(first[0], g.created_hint->0));
        }
        assert forall|i: int, v: i64| 0 <= i < later.len() implies !(#[trigger] head_is_of(
            later[i],
            v,
        )) by {
            assert(!head_is_of(first[i + 1], v));
        }
        assert forall|i: int, v: Seq<char>|
            no_line_titles(first) && 0 <= i < later.len() implies !(#[trigger] line_titles(
            later[i],
            v,
        )) by {
            assert(!line_titles(first[i + 1], v));
        }
        assert forall|i: int, v: Seq<char>|
            no_head_says(first, "cwd"@) && 0 <= i < later.len() implies !(#[trigger] head_says(
            later[i],
            "cwd"@,
            v,
        )) by {
            assert(!head_says(first[i + 1], "cwd"@, v));
        }
        assert forall|i: int, v: Seq<char>|
            no_head_says(first, "model_provider"@) && 0 <= i < later.len() implies !(
        #[trigger] head_says(later[i], "model_provider"@, v)) by {
            assert(!head_says(first[i + 1], "model_provider"@, v));
        }
        lemma_first_time(g, rest, n - 1, time);
    }
}

/// A session was changed when its file was. It was created at the time in the first head that has one,
/// as long as something is still looked for when that head is read: the lines before it do not yet
/// give a title, a directory and a provider. Where no head has a time, it was created when its file
/// was, or else when its file was changed.
pub proof fn sessions_have_the_times_of_their_files(
    content: ContentModel,
    session_id: Seq<char>,
    n: int,
    time: i64,
)
    ensures
        ({
            let s = file_summary(content, session_id);
            let before = content.lines.take(n);
            &&& content.modified is None ==> s.updated_at is None
            &&& content.modified matches Some(t) ==> (t <= i64::MAX ==> s.updated_at == Some(
                t as i64,
            ))
            &&& 0 <= n < content.lines.len() && no_head_has_time(before) && head_is_of(
                content.lines[n],
                time,
            ) && (no_line_titles(before) || no_head_says(before, "cwd"@) || no_head_says(
                before,
                "model_provider"@,
            )) ==> s.created_at == Some(time)
            &&& no_head_has_time(content.lines) ==> {
                &&& content.created matches Some(t) ==> (t <= i64::MAX ==> s.created_at == Some(
                    t as i64,
                ))
                &&& content.created is None ==> s.created_at == s.updated_at
            }
        }),
{
    let before = content.lines.take(n);
    if 0 <= n < content.lines.len() && no_head_has_time(before) && head_is_of(
        content.lines[n],
        time,
    ) && (no_line_titles(before) || no_head_says(before, "cwd"@) || no_head_says(
        before,
        "model_provider"@,
    )) {
        lemma_first_time(no_findings(), content.lines, n, time);
    }
    if no_head_has_time(content.lines) {
        lemma_no_time(no_findings(), content.lines);
    }
}

/// Whether the identifier of a session stands at a place in a text.
pub open spec fn id_stands_at(text: Seq<char>, at: int) -> bool {
    0 <= at <= text.len() - 36 && is_session_id(text.subrange(at, at + 36))
}

/// The identifier of a session is the first one that stands in the name of its file, whatever its lines
/// say.
pub proof fn names_tell_whose_session_it_is(
    name: Seq<char>,
    list: Option<Seq<Option<Seq<char>>>>,
    at: int,
)
    requires
        id_stands_at(name, at),
        forall|i: int| 0 <= i < at ==> !#[trigger] id_stands_at(name, i),
    ensures
        file_session_id(Some(name), list) == Some(name.subrange(at, at + 36)),
{
    lemma_first_session_id(name, at);
}

proof fn lemma_first_session_id(name: Seq<char>, at: int)
    requires
        id_stands_at(name, at),
        forall|i: int| 0 <= i < at ==> !#[trigger] id_stands_at(name, i),
    ensures
        first_session_id(name) == Some(name.subrange(at, at + 36)),
    decreases at,
{
    assert(name.subrange(0, 36) =~= name.take(36));
    if at > 0 {
        let rest = name.drop_first();
        assert(rest.subrange(at - 1, at + 35) =~= name.subrange(at, at + 36));
        assert forall|i: int| 0 <= i < at - 1 implies !#[trigger] id_stands_at(rest, i) by {
            assert(rest.subrange(i, i + 36) =~= name.subrange(i + 1, i + 37));
            assert(!id_stands_at(name, i + 1));
        }
        assert(!id_stands_at(name, 0));
        lemma_first_session_id(rest, at - 1);
    }
}

proof fn lemma_no_session_id(name: Seq<char>)
    requires
        forall|i: int| !#[trigger] id_stands_at(name, i),
    ensures
        first_session_id(name) is None,
    decreases name.len(),
{
    if name.len() >= 36 {
        assert(name.subrange(0, 36) =~= name.take(36));
        assert(!id_stands_at(name, 0));
        let rest = name.drop_first();
        assert forall|i: int| !#[trigger] id_stands_at(rest, i) by {
            if 0 <= i <= rest.len() - 36 {
                assert(rest.subrange(i, i + 36) =~= name.subrange(i + 1, i + 37));
                assert(!id_stands_at(name, i + 1));
            }
        }
        lemma_no_session_id(rest);
    }
}

/// Whether a line has a payload with that identifier.
pub open spec fn line_identifies(line: Option<Seq<char>>, id: Seq<char>) -> bool {
    line matches Some(text) && (json_read(text) matches Ok(row) && exists|
        p: Map<Seq<char>, JsonModel>,
    |
        #[trigger] has_payload(row, p) && says(p, "id"@, id))
}

/// Whether a line has a payload with a blank identifier.
pub open spec fn line_has_blank_id(line: Option<Seq<char>>) -> bool {
    exists|id: Seq<char>| #[trigger] line_identifies(line, id) && is_blank(id)
}

/// Where the name of a file holds no identifier, the session has the first identifier in its first five
/// lines that is not blank, without white space at its ends, as long as each line before it has one
/// that is blank.
pub proof fn lines_tell_whose_session_it_is(
    name: Option<Seq<char>>,
    list: Seq<Option<Seq<char>>>,
    at: int,
    id: Seq<char>,
)
    requires
        name matches Some(text) ==> forall|i: int| !#[trigger] id_stands_at(text, i),
        0 <= at < list.len(),
        at < 5,
        line_identifies(list[at], id),
        !is_blank(id),
        forall|i: int| 0 <= i < at ==> line_has_blank_id(#[trigger] list[i]),
    ensures
        file_session_id(name, Some(list)) == Some(trimmed(id)),
{
    if let Some(text) = name {
        lemma_no_session_id(text);
    }
    let few = at_most(list, 5);
    assert forall|i: int| 0 <= i < at implies line_has_blank_id(#[trigger] few[i]) by {
        assert(few[i] == list[i]);
    }
    lemma_id_in_lines(few, at, id);
}

proof fn lemma_id_on_line(line: Option<Seq<char>>, id: Seq<char>)
    requires
        line_identifies(line, id),
    ensures
        id_on_line(line) == Some(trimmed(id)),
{
}

proof fn lemma_id_in_lines(list: Seq<Option<Seq<char>>>, at: int, id: Seq<char>)
    requires
        0 <= at < list.len(),
        line_identifies(list[at], id),
        !is_blank(id),
        forall|i: int| 0 <= i < at ==> line_has_blank_id(#[trigger] list[i]),
    ensures
        id_in_lines(list) == Some(trimmed(id)),
    decreases at,
{
    if at == 0 {
        lemma_id_on_line(list[0], id);
    } else {
        let other = choose|other: Seq<char>|
            #[trigger] line_identifies(list[0], other) && is_blank(other);
        lemma_id_on_line(list[0], other);
        let rest = list.drop_first();
        assert forall|i: int| 0 <= i < at - 1 implies line_has_blank_id(#[trigger] rest[i]) by {
            assert(rest[i] == list[i + 1]);
        }
        lemma_id_in_lines(rest, at - 1, id);
    }
}

/// Whether a text holds so many hexadecimal digits and nothing else, with the letters in lower case.
pub open spec fn is_hex_group(s: Seq<char>, n: nat) -> bool {
    s.len() == n && forall|i: int|
        0 <= i < s.len() ==> '0' <= #[trigger] s[i] <= '9' || 'a' <= s[i] <= 'f'
}

/// The identifier of a session is made up of five groups of hexadecimal digits with hyphens between
/// them; a text of another length, or with any other character in it, is none.
pub proof fn identifiers_are_made_of_groups(
    a: Seq<char>,
    b: Seq<char>,
    c: Seq<char>,
    d: Seq<char>,
    e: Seq<char>,
    s: Seq<char>,
)
    ensures
        is_hex_group(a, 8) && is_hex_group(b, 4) && is_hex_group(c, 4) && is_hex_group(d, 4)
            && is_hex_group(e, 12) ==> is_session_id(
            a + seq!['-'] + b + seq!['-'] + c + seq!['-'] + d + seq!['-'] + e,
        ),
        s.len() != 36 ==> !is_session_id(s),
        is_session_id(s) ==> {
            &&& s[8] == '-' && s[13] == '-' && s[18] == '-' && s[23] == '-'
            &&& is_hex_group(s.subrange(0, 8), 8)
            &&& is_hex_group(s.subrange(9, 13), 4)
            &&& is_hex_group(s.subrange(14, 18), 4)
            &&& is_hex_group(s.subrange(19, 23), 4)
            &&& is_hex_group(s.subrange(24, 36), 12)
        },
{
    let whole = a + seq!['-'] + b + seq!['-'] + c + seq!['-'] + d + seq!['-'] + e;
    if is_hex_group(a, 8) && is_hex_group(b, 4) && is_hex_group(c, 4) && is_hex_group(d, 4)
        && is_hex_group(e, 12) {
        assert forall|i: int| 0 <= i < 36 implies if i == 8 || i == 13 || i == 18 || i == 23 {
            #[trigger] whole[i] == '-'
        } else {
            is_hex(whole[i])
        } by {
            if i < 8 {
                assert(whole[i] == a[i]);
            } else if 8 < i < 13 {
                assert(whole[i] == b[i - 9]);
            } else if 13 < i < 18 {
                assert(whole[i] == c[i - 14]);
            } else if 18 < i < 23 {
                assert(whole[i] == d[i - 19]);
            } else if 23 < i {
                assert(whole[i] == e[i - 24]);
            }
        }
    }
}

/// Whether one of the lines gives its session a title.
pub open spec fn some_line_titles(list: Seq<Option<Seq<char>>>) -> bool {
    exists|i: int, title: Seq<char>|
        0 <= i < list.len() && #[trigger] line_titles(list[i], title)
}

/// Whether one of the lines is a head that says something under a name.
pub open spec fn some_head_says(list: Seq<Option<Seq<char>>>, name: Seq<char>) -> bool {
    exists|i: int, value: Seq<char>|
        0 <= i < list.len() && #[trigger] head_says(list[i], name, value)
}

proof fn lemma_search_ends(f: Findings, list: Seq<Option<Seq<char>>>, n: int)
    requires
        0 <= n <= list.len(),
        f.created_hint is None,
        no_head_has_time(list.take(n)),
        f.title.len() > 0 || some_line_titles(list.take(n)),
        f.cwd.len() > 0 || some_head_says(list.take(n), "cwd"@),
        f.model_provider.len() > 0 || some_head_says(list.take(n), "model_provider"@),
    ensures
        found_in_lines(f, list).created_hint is None,
    decreases list.len(),
{
    let first = list.take(n);
    if n > 0 && !all_found(f) {
        let g = found_on_line(f, list[0]);
        let rest = list.drop_first();
        let later = rest.take(n - 1);
        assert(first[0] == list[0]);
        assert forall|i: int| 0 <= i < later.len() implies #[trigger] later[i] == first[i + 1] by {}
        lemma_head_on_line(f, list[0]);
        lemma_time_on_line(f, list[0], 0);
        if g.created_hint is Some {
            assert(!head_is_of(first[0], g.created_hint->0));
        }
        assert forall|i: int, v: i64| 0 <= i < later.len() implies !(#[trigger] head_is_of(
            later[i],
            v,
        )) by {
            assert(!head_is_of(first[i + 1], v));
        }
        if f.title.len() > 0 {
            lemma_title_on_line(f, list[0], f.title);
        } else {
            let (i, title) = choose|i: int, title: Seq<char>|
                0 <= i < first.len() && #[trigger] line_titles(first[i], title);
            lemma_title_on_line(f, list[0], title);
            if i > 0 {
                assert(line_titles(later[i - 1], title));
            }
        }
        if f.cwd.len() == 0 {
            let (i, value) = choose|i: int, value: Seq<char>|
                0 <= i < first.len() && #[trigger] head_says(first[i], "cwd"@, value);
            if i > 0 {
                assert(head_says(later[i - 1], "cwd"@, value));
            }
        }
        if f.model_provider.len() == 0 {
            let (i, value) = choose|i: int, value: Seq<char>|
                0 <= i < first.len() && #[trigger] head_says(first[i], "model_provider"@, value);
            if i > 0 {
                assert(head_says(later[i - 1], "model_provider"@, value));
            }
        }
        lemma_search_ends(g, rest, n - 1);
    }
}

/// The search for what a file says ends with the line after which a title, a directory and a provider
/// are known: the time in a head that comes only later does not count, and the session was created when
/// its file was, or else when its file was changed.
pub proof fn the_search_ends_when_all_is_found(
    content: ContentModel,
    session_id: Seq<char>,
    n: int,
)
    requires
        0 <= n <= content.lines.len(),
        some_line_titles(content.lines.take(n)),
        some_head_says(content.lines.take(n), "cwd"@),
        some_head_says(content.lines.take(n), "model_provider"@),
        no_head_has_time(content.lines.take(n)),
    ensures
        ({
            let s = file_summary(content, session_id);
            &&& content.created matches Some(t) ==> (t <= i64::MAX ==> s.created_at == Some(
                t as i64,
            ))
            &&& content.created is None ==> s.created_at == s.updated_at
        }),
{
    lemma_search_ends(no_findings(), content.lines, n);
}

} // verus!
