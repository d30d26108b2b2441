//! The title of a session, saved in its file, in the index and in the database.
use vstd::prelude::*;

use crate::clock::{now_timestamp, parse_rfc3339_to_timestamp, timestamp_of};
use crate::decimal::{digits, unsigned_text};
use crate::index::IndexModel;
use crate::json::{says, text_field, text_or_empty, Json, JsonModel};
use crate::json_text::{
    json_from_str, json_line, json_read, nesting_within, parse_json, reads_again,
    same_but_fractions, write_line, written_well,
};
use crate::phrase::first_filled;
use crate::search::{ascii_lowercased, eq_ignore_ascii_case, lowercase};
use crate::session_file::{
    all_found, file_summary, first_findings_stay, found_in_lines, found_in_payload, found_on_line,
    no_findings, ContentModel, Findings,
};
use crate::snapshots::{session_at, unless_blank, SessionSnapshot, SnapshotModel};
use crate::table::lookup;
use crate::text::{
    blank, file_of, files_keep_their_lines, is_blank, is_space, join_lines, lemma_trimmed_fixed,
    lines, lines_hold_no_line_feed, one_line, same_text, text_lines, trim, trimmed,
    trimming_is_stable,
};
use crate::threads::{column_value, thread_of, RowModel, SqlModel, ThreadModel};
use crate::timeline::payload_of;

verus! {

// ---------------------------------------------------------------------------------------------
// The session file
// ---------------------------------------------------------------------------------------------
/// A payload with a title put in.
pub open spec fn retitled_payload(
    payload: Map<Seq<char>, JsonModel>,
    title: Seq<char>,
) -> Map<Seq<char>, JsonModel> {
    payload.insert("thread_name"@, JsonModel::Text(title)).insert("title"@, JsonModel::Text(title))
}

/// Whether a payload is the head of the session. A head without an identifier is the head of
/// whatever session the file holds.
pub open spec fn heads_session(payload: Map<Seq<char>, JsonModel>, session_id: Seq<char>) -> bool {
    &&& text_or_empty(payload, "type"@) == "session_meta"@
    &&& match text_field(payload, "id"@) {
        Some(id) => ascii_lowercased(id) == ascii_lowercased(session_id),
        None => true,
    }
}

/// The line that is the head of the session, with a title put in.
pub open spec fn retitled_head(
    row: JsonModel,
    session_id: Seq<char>,
    title: Seq<char>,
) -> Option<JsonModel> {
    match (row, payload_of(row)) {
        (JsonModel::Object(fields), Some(payload)) => if heads_session(payload, session_id) {
            Some(
                JsonModel::Object(
                    fields.insert("payload"@, JsonModel::Object(retitled_payload(payload, title))),
                ),
            )
        } else {
            None
        },
        _ => None,
    }
}

/// Puts a title into the head of the session. Says whether the line is that head; any other line
/// stays as it is.
pub fn update_session_meta_title(line: &mut Json, session_id: &str, title: &str) -> (r: bool)
    ensures
        match retitled_head(old(line)@, session_id@, title@) {
            Some(next) => r && final(line)@ == next,
            None => !r && final(line)@ == old(line)@,
        },
{
    let fields = match &*line {
        Json::Object(fields) => fields,
        _ => {
            return false;
        },
    };
    let payload = match fields.get("payload") {
        Some(value) => match value.as_object() {
            Some(payload) => payload,
            None => {
                return false;
            },
        },
        None => {
            return false;
        },
    };
    if !same_text(payload.get_text_or_empty("type"), "session_meta") {
        return false;
    }
    if let Some(id) = payload.get_text("id") {
        if !eq_ignore_ascii_case(id, session_id) {
            return false;
        }
    }
    let mut next_payload = payload.clone();
    next_payload.set("thread_name", json_from_str(title));
    next_payload.set("title", json_from_str(title));
    let mut next = fields.clone();
    next.set("payload", Json::Object(next_payload));
    *line = Json::Object(next);
    true
}

/// What the head of the session on a line becomes.
pub open spec fn head_on(line: Seq<char>, session_id: Seq<char>, title: Seq<char>) -> Option<
    JsonModel,
> {
    if trimmed(line).len() == 0 {
        None
    } else {
        match json_read(trimmed(line)) {
            Ok(row) => retitled_head(row, session_id, title),
            Err(_) => None,
        }
    }
}

/// The number of the first line that is the head of the session, or the number of lines where none
/// is.
pub open spec fn head_line(list: Seq<Seq<char>>, session_id: Seq<char>, title: Seq<char>) -> int
    decreases list.len(),
{
    if list.len() == 0 || head_on(list[0], session_id, title) is Some {
        0
    } else {
        1 + head_line(list.drop_first(), session_id, title)
    }
}

/// The lines of a session file after a title was saved: the head has it, and the other lines lose
/// no more than the white space at their ends. There are none where no line is the head.
pub open spec fn retitled_file(
    list: Seq<Seq<char>>,
    session_id: Seq<char>,
    title: Seq<char>,
) -> Result<Option<Seq<Seq<char>>>, Seq<char>> {
    let at = head_line(list, session_id, title);
    if at < list.len() {
        match json_line(head_on(list[at], session_id, title)->0) {
            Ok(line) => Ok(
                Some(list.map_values(|line: Seq<char>| trimmed(line)).update(at, line)),
            ),
            Err(e) => Err("Failed to serialize session meta line: "@ + e),
        }
    } else {
        Ok(None)
    }
}

proof fn lemma_head_line(list: Seq<Seq<char>>, session_id: Seq<char>, title: Seq<char>, at: int)
    requires
        0 <= at <= list.len(),
        forall|k: int| 0 <= k < at ==> head_on(#[trigger] list[k], session_id, title) is None,
        at < list.len() ==> head_on(list[at], session_id, title) is Some,
    ensures
        head_line(list, session_id, title) == at,
    decreases list.len(),
{
    if list.len() > 0 && head_on(list[0], session_id, title) is None {
        let rest = list.drop_first();
        assert forall|k: int| 0 <= k < at - 1 implies head_on(
            #[trigger] rest[k],
            session_id,
            title,
        ) is None by {
            assert(rest[k] == list[k + 1]);
        }
        lemma_head_line(rest, session_id, title, at - 1);
    }
}

proof fn lemma_head_nesting(row: JsonModel, session_id: Seq<char>, title: Seq<char>)
    requires
        nesting_within(row, 127),
        retitled_head(row, session_id, title) is Some,
    ensures
        nesting_within(retitled_head(row, session_id, title)->0, 127),
{
    let fields = row->Object_0;
    let payload = payload_of(row)->0;
    let next_payload = retitled_payload(payload, title);
    let next = retitled_head(row, session_id, title)->0->Object_0;
    assert(fields["payload"@] == JsonModel::Object(payload));
    assert(nesting_within(fields["payload"@], 126));
    assert forall|k: Seq<char>| next_payload.contains_key(k) implies nesting_within(
        #[trigger] next_payload[k],
        125,
    ) by {
        if k != "title"@ && k != "thread_name"@ {
            assert(nesting_within(payload[k], 125));
        }
    }
    assert(nesting_within(JsonModel::Object(next_payload), 126));
    assert forall|k: Seq<char>| next.contains_key(k) implies nesting_within(
        #[trigger] next[k],
        126,
    ) by {
        if k != "payload"@ {
            assert(nesting_within(fields[k], 126));
        }
    }
}

fn write_head(line: &str, session_id: &str, title: &str) -> (r: Option<Result<String, String>>)
    ensures
        r matches Some(outcome) ==> outcome is Ok,
        match (head_on(line@, session_id@, title@), r) {
            (Some(next), Some(Ok(text))) => json_line(next) == Ok::<Seq<char>, Seq<char>>(text@)
                && written_well(next) && nesting_within(next, 127),
            (Some(next), Some(Err(e))) => json_line(next) == Err::<Seq<char>, Seq<char>>(e@),
            (None, None) => true,
            _ => false,
        },
{
    let short = trim(line);
    if short.is_empty() {
        return None;
    }
    match parse_json(short) {
        Ok(parsed) => {
            let mut row = parsed;
            proof {
                if retitled_head(row@, session_id@, title@) is Some {
                    lemma_head_nesting(row@, session_id@, title@);
                }
            }
            if update_session_meta_title(&mut row, session_id, title) {
                Some(write_line(&row))
            } else {
                None
            }
        },
        Err(_) => None,
    }
}

/// The text of a session file after a title was saved, where one of its lines is the head of the
/// session. `content` is the text of the file before, where the file exists.
pub fn upsert_rollout_title(content: Option<&str>, session_id: &str, title: &str) -> (r: Result<
    Option<String>,
    String,
>)
    ensures
        r is Ok,
        match content {
            None => r matches Ok(None),
            Some(text) => match (retitled_file(text_lines(text@), session_id@, title@), r) {
                (Ok(Some(list)), Ok(Some(next))) => {
                    let head = head_on(
                        text_lines(text@)[head_line(text_lines(text@), session_id@, title@)],
                        session_id@,
                        title@,
                    )->0;
                    &&& next@ == file_of(list)
                    &&& written_well(head)
                    &&& nesting_within(head, 127)
                },
                (Ok(None), Ok(None)) => true,
                (Err(e), Err(message)) => message@ == e,
                _ => false,
            },
        },
{
    let text = match content {
        Some(text) => text,
        None => {
            return Ok(None);
        },
    };
    let list = lines(text);
    let ghost all = list.deep_view();
    let ghost short_lines = all.map_values(|line: Seq<char>| trimmed(line));
    let mut next: Vec<String> = Vec::new();
    let mut at: Option<usize> = None;
    let mut i: usize = 0;
    while i < list.len()
        invariant
            all == list.deep_view(),
            short_lines == all.map_values(|line: Seq<char>| trimmed(line)),
            i <= list@.len(),
            next@.len() == i,
            all == text_lines(text@),
            content matches Some(t) && t@ == text@,
            match at {
                None => {
                    &&& forall|k: int|
                        0 <= k < i ==> head_on(#[trigger] all[k], session_id@, title@) is None
                    &&& forall|k: int| 0 <= k < i ==> (#[trigger] next@[k])@ == short_lines[k]
                },
                Some(n) => {
                    &&& n < i
                    &&& head_line(all, session_id@, title@) == n
                    &&& head_on(all[n as int], session_id@, title@) is Some
                    &&& written_well(head_on(all[n as int], session_id@, title@)->0)
                    &&& nesting_within(head_on(all[n as int], session_id@, title@)->0, 127)
                    &&& json_line(head_on(all[n as int], session_id@, title@)->0) == Ok::<
                        Seq<char>,
                        Seq<char>,
                    >(next@[n as int]@)
                    &&& forall|k: int|
                        0 <= k < i && k != n ==> (#[trigger] next@[k])@ == short_lines[k]
                },
            },
        decreases list@.len() - i,
    {
        let line = list[i].as_str();
        proof {
            assert(all[i as int] == line@);
        }
        let mut written = false;
        if at.is_none() {
            if let Some(outcome) = write_head(line, session_id, title) {
                proof {
                    lemma_head_line(all, session_id@, title@, i as int);
                }
                match outcome {
                    Ok(head) => {
                        next.push(head);
                        at = Some(i);
                        written = true;
                    },
                    Err(e) => {
                        let mut message = "Failed to serialize session meta line: ".to_owned();
                        message.append(e.as_str());
                        return Err(message);
                    },
                }
            }
        }
        if !written {
            next.push(trim(line).to_owned());
        }
        i += 1;
    }
    match at {
        None => {
            proof {
                lemma_head_line(all, session_id@, title@, all.len() as int);
            }
            Ok(None)
        },
        Some(n) => {
            proof {
                assert(next.deep_view() =~= short_lines.update(n as int, next@[n as int]@));
            }
            Ok(Some(join_lines(&next)))
        },
    }
}

// ---------------------------------------------------------------------------------------------
// The database
// ---------------------------------------------------------------------------------------------
/// The row that the database gets for a session when its title is saved.
#[derive(Debug, Clone, PartialEq, Eq)]
pub struct ThreadTitleRow {
    pub id: String,
    pub rollout_path: String,
    pub created_at: i64,
    pub updated_at: i64,
    pub source: String,
    pub model_provider: String,
    pub cwd: String,
    pub title: String,
    pub sandbox_policy: String,
    pub approval_mode: String,
    pub cli_version: String,
    pub first_user_message: String,
}

/// What the database gets for a session.
#[verifier::ext_equal]
pub struct TitleRowModel {
    pub id: Seq<char>,
    pub rollout_path: Seq<char>,
    pub created_at: i64,
    pub updated_at: i64,
    pub source: Seq<char>,
    pub model_provider: Seq<char>,
    pub cwd: Seq<char>,
    pub title: Seq<char>,
    pub sandbox_policy: Seq<char>,
    pub approval_mode: Seq<char>,
    pub cli_version: Seq<char>,
    pub first_user_message: Seq<char>,
}

impl DeepView for ThreadTitleRow {
    type V = TitleRowModel;

    open spec fn deep_view(&self) -> TitleRowModel {
        TitleRowModel {
            id: self.id@,
            rollout_path: self.rollout_path@,
            created_at: self.created_at,
            updated_at: self.updated_at,
            source: self.source@,
            model_provider: self.model_provider@,
            cwd: self.cwd@,
            title: self.title@,
            sandbox_policy: self.sandbox_policy@,
            approval_mode: self.approval_mode@,
            cli_version: self.cli_version@,
            first_user_message: self.first_user_message@,
        }
    }
}

/// The seconds of a time, or the present time where the text denotes none.
pub open spec fn seconds_or(updated_at: Seq<char>, now: i64) -> i64 {
    match timestamp_of(updated_at) {
        Some(t) => t,
        None => now,
    }
}

/// The row that the database gets for a session when its title is saved at a time. The time at which
/// a thread was created is kept where the database has it; the title stands for the first message of
/// the user too.
pub open spec fn title_row(
    snapshot: SnapshotModel,
    title: Seq<char>,
    updated_at: Seq<char>,
    existing_created_at: Option<i64>,
    now: i64,
) -> TitleRowModel {
    TitleRowModel {
        id: snapshot.id,
        rollout_path: match snapshot.rollout_path {
            Some(path) => path,
            None => Seq::empty(),
        },
        created_at: match (existing_created_at, snapshot.created_at) {
            (Some(t), _) => t,
            (None, Some(t)) => t,
            (None, None) => seconds_or(updated_at, now),
        },
        updated_at: seconds_or(updated_at, now),
        source: "cli"@,
        model_provider: unless_blank(snapshot.model_provider, "openai"@),
        cwd: snapshot.cwd,
        title,
        sandbox_policy: "{\"type\":\"danger-full-access\"}"@,
        approval_mode: "never"@,
        cli_version: "cockpit-tools"@,
        first_user_message: title,
    }
}

/// The row that the database gets for a session when its title is saved. `existing_created_at` is
/// when the database says that the thread was created, and `now` the present time.
pub fn thread_title_row(
    snapshot: &SessionSnapshot,
    title: &str,
    updated_at: &str,
    existing_created_at: Option<i64>,
    now: i64,
) -> (r: ThreadTitleRow)
    ensures
        r.deep_view() == title_row(
            snapshot.deep_view(),
            title@,
            updated_at@,
            existing_created_at,
            now,
        ),
{
    let seconds: i64 = match parse_rfc3339_to_timestamp(updated_at) {
        Some(t) => t,
        None => now,
    };
    ThreadTitleRow {
        id: snapshot.id.clone(),
        rollout_path: match &snapshot.rollout_path {
            Some(path) => path.clone(),
            None => String::new(),
        },
        created_at: match (existing_created_at, snapshot.created_at) {
            (Some(t), _) => t,
            (None, Some(t)) => t,
            (None, None) => seconds,
        },
        updated_at: seconds,
        source: "cli".to_owned(),
        model_provider: if blank(snapshot.model_provider.as_str()) {
            "openai".to_owned()
        } else {
            snapshot.model_provider.clone()
        },
        cwd: snapshot.cwd.clone(),
        title: title.to_owned(),
        sandbox_policy: "{\"type\":\"danger-full-access\"}".to_owned(),
        approval_mode: "never".to_owned(),
        cli_version: "cockpit-tools".to_owned(),
        first_user_message: title.to_owned(),
    }
}

/// The row that the database gets for a session when its title is saved, with the present time where
/// `updated_at` denotes none.
pub fn upsert_thread_title(
    snapshot: &SessionSnapshot,
    title: &str,
    updated_at: &str,
    existing_created_at: Option<i64>,
) -> (r: ThreadTitleRow)
    ensures
        exists|now: i64|
            0 <= now <= 8_210_266_876_799 && r.deep_view() == #[trigger] title_row(
                snapshot.deep_view(),
                title@,
                updated_at@,
                existing_created_at,
                now,
            ),
{
    let now: i64 = now_timestamp();
    thread_title_row(snapshot, title, updated_at, existing_created_at, now)
}

// ---------------------------------------------------------------------------------------------
// All three
// ---------------------------------------------------------------------------------------------
/// What came of saving a title.
#[derive(Debug, Clone, PartialEq, Eq)]
pub struct CodexSessionTitleUpdateResult {
    pub session_id: String,
    pub title: String,
    pub matched_instance_count: usize,
    pub rollout_file_updated_count: usize,
    pub session_index_updated_count: usize,
    pub sqlite_updated_count: usize,
    pub backup_paths: Vec<String>,
    pub warnings: Vec<String>,
    pub message: String,
}

/// What came of saving a title in one instance: of the session file, of the index and of the
/// database, whether it was changed, or why it could not be.
#[derive(Debug, PartialEq, Eq)]
pub struct TitleWrite {
    pub instance_name: String,
    pub rollout: Result<bool, String>,
    pub index: Result<bool, String>,
    pub sqlite: Result<bool, String>,
}

/// What came of one write.
pub open spec fn outcome_model(outcome: Result<bool, String>) -> Result<bool, Seq<char>> {
    match outcome {
        Ok(changed) => Ok(changed),
        Err(e) => Err(e@),
    }
}

/// What came of saving a title in one instance.
#[verifier::ext_equal]
pub struct WriteModel {
    pub instance_name: Seq<char>,
    pub rollout: Result<bool, Seq<char>>,
    pub index: Result<bool, Seq<char>>,
    pub sqlite: Result<bool, Seq<char>>,
}

impl DeepView for TitleWrite {
    type V = WriteModel;

    open spec fn deep_view(&self) -> WriteModel {
        WriteModel {
            instance_name: self.instance_name@,
            rollout: outcome_model(self.rollout),
            index: outcome_model(self.index),
            sqlite: outcome_model(self.sqlite),
        }
    }
}

/// The title to be saved: without white space at its ends, and not empty.
pub fn accepted_title(title: &str) -> (r: Result<String, String>)
    ensures
        match r {
            Ok(text) => !is_blank(title@) && text@ == trimmed(title@),
            Err(e) => is_blank(title@) && e@ == "Title cannot be empty."@,
        },
{
    let next = trim(title);
    if next.is_empty() {
        Err("Title cannot be empty.".to_owned())
    } else {
        Ok(next.to_owned())
    }
}

/// A warning about an instance.
pub open spec fn about(name: Seq<char>, what: Seq<char>) -> Seq<char> {
    name + ": "@ + what
}

/// The warnings about saving a title in one instance.
pub open spec fn write_warnings(w: WriteModel) -> Seq<Seq<char>> {
    let file = match w.rollout {
        Ok(true) => Seq::empty(),
        Ok(false) => seq![
            about(
                w.instance_name,
                "session file update skipped because rollout file is missing."@,
            ),
        ],
        Err(e) => seq![about(w.instance_name, "session file update failed: "@ + e)],
    };
    let index = match w.index {
        Ok(_) => Seq::empty(),
        Err(e) => seq![about(w.instance_name, "session_index update failed: "@ + e)],
    };
    let sqlite = match w.sqlite {
        Ok(_) => Seq::empty(),
        Err(e) => seq![about(w.instance_name, "sqlite update failed: "@ + e)],
    };
    file + index + sqlite
}

/// The warnings about saving a title, in the order of the instances.
pub open spec fn all_write_warnings(writes: Seq<WriteModel>) -> Seq<Seq<char>>
    decreases writes.len(),
{
    if writes.len() == 0 {
        Seq::empty()
    } else {
        all_write_warnings(writes.drop_last()) + write_warnings(writes.last())
    }
}

/// How many of the instances something holds of.
pub open spec fn count_where(writes: Seq<WriteModel>, p: spec_fn(WriteModel) -> bool) -> nat
    decreases writes.len(),
{
    if writes.len() == 0 {
        0
    } else {
        let here: nat = if p(writes.last()) {
            1
        } else {
            0
        };
        count_where(writes.drop_last(), p) + here
    }
}

/// The message that sums up what was done in some instances.
pub open spec fn done_message(what: Seq<char>, instances: nat, warnings: nat) -> Seq<char> {
    if warnings == 0 {
        what + " in "@ + digits(instances) + " instance(s)."@
    } else {
        what + " in "@ + digits(instances) + " instance(s), with "@ + digits(warnings)
            + " warning(s)."@
    }
}

/// The message that sums up what was done in some instances.
pub fn build_done_message(what: &str, instances: usize, warnings: usize) -> (r: String)
    ensures
        r@ == done_message(what@, instances as nat, warnings as nat),
{
    let mut out = what.to_owned();
    out.append(" in ");
    out.append(unsigned_text(instances as u64).as_str());
    if warnings == 0 {
        out.append(" instance(s).");
    } else {
        out.append(" instance(s), with ");
        out.append(unsigned_text(warnings as u64).as_str());
        out.append(" warning(s).");
    }
    out
}

fn warning_about(name: &str, what: &str, why: &str) -> (r: String)
    ensures
        r@ == about(name@, what@ + why@),
{
    let mut out = name.to_owned();
    out.append(": ");
    out.append(what);
    out.append(why);
    proof {
        assert(name@ + ": "@ + what@ + why@ =~= about(name@, what@ + why@));
    }
    out
}

fn note_write(warnings: &mut Vec<String>, w: &TitleWrite)
    ensures
        final(warnings).deep_view() == old(warnings).deep_view() + write_warnings(w.deep_view()),
{
    let ghost start = warnings.deep_view();
    let name = w.instance_name.as_str();
    proof {
        reveal_strlit("");
        assert(""@ =~= Seq::<char>::empty());
    }
    match &w.rollout {
        Ok(true) => {},
        Ok(false) => {
            warnings.push(
                warning_about(
                    name,
                    "session file update skipped because rollout file is missing.",
                    "",
                ),
            );
            proof {
                assert("session file update skipped because rollout file is missing."@ + ""@
                    =~= "session file update skipped because rollout file is missing."@);
            }
        },
        Err(e) => {
            warnings.push(warning_about(name, "session file update failed: ", e.as_str()));
        },
    }
    let ghost after_file = warnings.deep_view();
    match &w.index {
        Ok(_) => {},
        Err(e) => {
            warnings.push(warning_about(name, "session_index update failed: ", e.as_str()));
        },
    }
    let ghost after_index = warnings.deep_view();
    match &w.sqlite {
        Ok(_) => {},
        Err(e) => {
            warnings.push(warning_about(name, "sqlite update failed: ", e.as_str()));
        },
    }
    proof {
        assert(warnings.deep_view() =~= start + write_warnings(w.deep_view()));
    }
}

/// What came of saving a title. `writes` are what came of it in each instance that the session was
/// found in, or why the session could not be looked for. No backups are made.
pub fn update_session_title(
    session_id: String,
    title: &str,
    writes: Result<Vec<TitleWrite>, String>,
) -> (r: Result<CodexSessionTitleUpdateResult, String>)
    ensures
        if is_blank(title@) {
            r matches Err(message) && message@ == "Title cannot be empty."@
        } else {
            match writes {
                Err(e) => r matches Err(message) && message@ == e@,
                Ok(list) => if list@.len() == 0 {
                    r matches Err(message) && message@ == "Session not found: "@ + session_id@
                } else {
                    let all = list.deep_view();
                    r matches Ok(done) && {
                        &&& done.session_id@ == session_id@
                        &&& done.title@ == trimmed(title@)
                        &&& done.matched_instance_count == list@.len()
                        &&& done.rollout_file_updated_count == count_where(
                            all,
                            |w: WriteModel| w.rollout == Ok::<bool, Seq<char>>(true),
                        )
                        &&& done.session_index_updated_count == count_where(
                            all,
                            |w: WriteModel| w.index == Ok::<bool, Seq<char>>(true),
                        )
                        &&& done.sqlite_updated_count == count_where(
                            all,
                            |w: WriteModel| w.sqlite == Ok::<bool, Seq<char>>(true),
                        )
                        &&& done.backup_paths@.len() == 0
                        &&& done.warnings.deep_view() == all_write_warnings(all)
                        &&& done.message@ == done_message(
                            "Updated title"@,
                            list@.len(),
                            all_write_warnings(all).len(),
                        )
                    }
                },
            }
        },
{
    let next_title = match accepted_title(title) {
        Ok(next_title) => next_title,
        Err(e) => {
            return Err(e);
        },
    };
    let list = match writes {
        Ok(list) => list,
        Err(e) => {
            return Err(e);
        },
    };
    if list.len() == 0 {
        let mut message = "Session not found: ".to_owned();
        message.append(session_id.as_str());
        return Err(message);
    }
    let ghost all = list.deep_view();
    let ghost in_file = |w: WriteModel| w.rollout == Ok::<bool, Seq<char>>(true);
    let ghost in_index = |w: WriteModel| w.index == Ok::<bool, Seq<char>>(true);
    let ghost in_database = |w: WriteModel| w.sqlite == Ok::<bool, Seq<char>>(true);
    let mut warnings: Vec<String> = Vec::new();
    let mut rollout_file_updated_count: usize = 0;
    let mut session_index_updated_count: usize = 0;
    let mut sqlite_updated_count: usize = 0;
    let mut i: usize = 0;
    proof {
        assert(all.take(0).len() == 0);
        assert(warnings.deep_view() =~= all_write_warnings(all.take(0)));
    }
    while i < list.len()
        invariant
            all == list.deep_view(),
            in_file == (|w: WriteModel| w.rollout == Ok::<bool, Seq<char>>(true)),
            in_index == (|w: WriteModel| w.index == Ok::<bool, Seq<char>>(true)),
            in_database == (|w: WriteModel| w.sqlite == Ok::<bool, Seq<char>>(true)),
            i <= list@.len(),
            rollout_file_updated_count <= i,
            session_index_updated_count <= i,
            sqlite_updated_count <= i,
            rollout_file_updated_count == count_where(all.take(i as int), in_file),
            session_index_updated_count == count_where(all.take(i as int), in_index),
            sqlite_updated_count == count_where(all.take(i as int), in_database),
            warnings.deep_view() == all_write_warnings(all.take(i as int)),
        decreases list@.len() - i,
    {
        let w = &list[i];
        proof {
            assert(all.take(i + 1).drop_last() =~= all.take(i as int));
            assert(all.take(i + 1).last() == w.deep_view());
        }
        if let Ok(true) = &w.rollout {
            rollout_file_updated_count += 1;
        }
        if let Ok(true) = &w.index {
            session_index_updated_count += 1;
        }
        if let Ok(true) = &w.sqlite {
            sqlite_updated_count += 1;
        }
        note_write(&mut warnings, w);
        i += 1;
    }
    proof {
        assert(all.take(i as int) =~= all);
    }
    let message = build_done_message("Updated title", list.len(), warnings.len());
    Ok(
        CodexSessionTitleUpdateResult {
            session_id,
            title: next_title,
            matched_instance_count: list.len(),
            rollout_file_updated_count,
            session_index_updated_count,
            sqlite_updated_count,
            backup_paths: Vec::new(),
            warnings,
            message,
        },
    )
}

// ---------------------------------------------------------------------------------------------
// Laws
// ---------------------------------------------------------------------------------------------
/// Whether a line is the head of a session with that title.
pub open spec fn is_head_with_title(line: Seq<char>, title: Seq<char>) -> bool {
    match json_read(line) {
        Ok(row) => match payload_of(row) {
            Some(payload) => {
                &&& text_or_empty(payload, "type"@) == "session_meta"@
                &&& text_field(payload, "thread_name"@) == Some(title)
                &&& text_field(payload, "title"@) == Some(title)
            },
            None => false,
        },
        Err(_) => false,
    }
}

proof fn lemma_written_head(row: JsonModel, session_id: Seq<char>, title: Seq<char>)
    requires
        retitled_head(row, session_id, title) is Some,
        written_well(retitled_head(row, session_id, title)->0),
        reads_again(retitled_head(row, session_id, title)->0),
    ensures
        ({
            let line = json_line(retitled_head(row, session_id, title)->0)->Ok_0;
            &&& one_line(line)
            &&& line.len() > 0
            &&& !is_space(line[0])
            &&& !is_space(line.last())
            &&& is_head_with_title(line, title)
        }),
{
    reveal_strlit("thread_name");
    reveal_strlit("title");
    reveal_strlit("type");
    reveal_with_fuel(same_but_fractions, 4);
    let head = retitled_head(row, session_id, title)->0;
    let line = json_line(head)->Ok_0;
    let back = json_read(line)->Ok_0;
    let payload = payload_of(row)->0;
    let next = retitled_payload(payload, title);
    assert("thread_name"@.len() != "title"@.len());
    assert("thread_name"@.len() != "type"@.len());
    assert("title"@.len() != "type"@.len());
    assert(head->Object_0["payload"@] == JsonModel::Object(next));
    assert(head->Object_0.contains_key("payload"@));
    assert(same_but_fractions(head->Object_0["payload"@], back->Object_0["payload"@]));
    assert(back->Object_0.dom() == head->Object_0.dom());
    assert(back->Object_0.contains_key("payload"@));
    let read = back->Object_0["payload"@]->Object_0;
    assert(next.contains_key("thread_name"@) && next["thread_name"@] == JsonModel::Text(title));
    assert(next.contains_key("title"@) && next["title"@] == JsonModel::Text(title));
    assert(next.contains_key("type"@) && next["type"@] == JsonModel::Text("session_meta"@)) by {
        assert(payload.contains_key("type"@)) by {
            if !payload.contains_key("type"@) {
                reveal_strlit("session_meta");
                assert(text_or_empty(payload, "type"@).len() == 0);
            }
        }
        reveal_strlit("session_meta");
    }
    assert(read.dom() == next.dom());
    assert(same_but_fractions(next["thread_name"@], read["thread_name"@]));
    assert(same_but_fractions(next["title"@], read["title"@]));
    assert(same_but_fractions(next["type"@], read["type"@]));
    assert(read.contains_key("thread_name"@) && read.contains_key("title"@) && read.contains_key(
        "type"@,
    ));
    assert(!is_space('{') && !is_space('}'));
}

proof fn lemma_head_bounds(list: Seq<Seq<char>>, session_id: Seq<char>, title: Seq<char>)
    ensures
        0 <= head_line(list, session_id, title) <= list.len(),
        head_line(list, session_id, title) < list.len() ==> head_on(
            list[head_line(list, session_id, title)],
            session_id,
            title,
        ) is Some,
    decreases list.len(),
{
    if list.len() > 0 && head_on(list[0], session_id, title) is None {
        lemma_head_bounds(list.drop_first(), session_id, title);
    }
}

/// A title that was saved is in the session file: the head of the session has it when the file is
/// read again, the file has as many lines as before, and every other line is what it was but for
/// white space at its ends. The head must be such that it can be read again once it was written.
pub proof fn saved_title_is_in_the_session_file(
    text: Seq<char>,
    session_id: Seq<char>,
    title: Seq<char>,
    next: Seq<Seq<char>>,
)
    requires
        retitled_file(text_lines(text), session_id, title) == Ok::<
            Option<Seq<Seq<char>>>,
            Seq<char>,
        >(Some(next)),
        written_well(
            head_on(
                text_lines(text)[head_line(text_lines(text), session_id, title)],
                session_id,
                title,
            )->0,
        ),
        reads_again(
            head_on(
                text_lines(text)[head_line(text_lines(text), session_id, title)],
                session_id,
                title,
            )->0,
        ),
    ensures
        ({
            let before = text_lines(text);
            let at = head_line(before, session_id, title);
            &&& text_lines(file_of(next)) == next
            &&& next.len() == before.len()
            &&& 0 <= at < next.len()
            &&& trimmed(next[at]) == next[at]
            &&& is_head_with_title(next[at], title)
            &&& forall|i: int|
                0 <= i < next.len() && i != at ==> #[trigger] next[i] == trimmed(before[i])
        }),
{
    let before = text_lines(text);
    let at = head_line(before, session_id, title);
    lemma_head_bounds(before, session_id, title);
    let row = json_read(trimmed(before[at]))->Ok_0;
    lemma_written_head(row, session_id, title);
    lemma_trimmed_fixed(next[at]);
    lines_hold_no_line_feed(text);
    assert(is_space('\r'));
    assert forall|i: int| 0 <= i < next.len() implies one_line(#[trigger] next[i]) by {
        if i != at {
            assert(one_line(before[i]));
            trimming_is_stable(before[i]);
        }
    }
    assert forall|i: int| 0 <= i < next.len() && (#[trigger] next[i]).len() > 0 implies next[i].last()
        != '\r' by {
        if i != at {
            trimming_is_stable(before[i]);
        }
    }
    files_keep_their_lines(next);
}

/// The lines of a file, all of which could be read.
pub open spec fn read_lines(list: Seq<Seq<char>>) -> Seq<Option<Seq<char>>> {
    list.map_values(|line: Seq<char>| Some(line))
}

proof fn lemma_found_in_two_parts(f: Findings, a: Seq<Option<Seq<char>>>, b: Seq<Option<Seq<char>>>)
    ensures
        found_in_lines(f, a + b) == found_in_lines(found_in_lines(f, a), b),
    decreases a.len(),
{
    if a.len() == 0 {
        assert(a + b =~= b);
    } else if !all_found(f) {
        assert((a + b).drop_first() =~= a.drop_first() + b);
        lemma_found_in_two_parts(found_on_line(f, a[0]), a.drop_first(), b);
    }
}

proof fn lemma_found_in_trimmed(f: Findings, a: Seq<Seq<char>>, b: Seq<Seq<char>>)
    requires
        a.len() == b.len(),
        forall|i: int| 0 <= i < a.len() ==> #[trigger] b[i] == trimmed(a[i]),
    ensures
        found_in_lines(f, read_lines(a)) == found_in_lines(f, read_lines(b)),
    decreases a.len(),
{
    if a.len() > 0 {
        trimming_is_stable(a[0]);
        assert(b[0] == trimmed(a[0]));
        assert(read_lines(a).drop_first() =~= read_lines(a.drop_first()));
        assert(read_lines(b).drop_first() =~= read_lines(b.drop_first()));
        assert(found_on_line(f, read_lines(a)[0]) == found_on_line(f, read_lines(b)[0]));
        assert forall|i: int| 0 <= i < a.drop_first().len() implies #[trigger] b.drop_first()[i]
            == trimmed(a.drop_first()[i]) by {
            assert(b[i + 1] == trimmed(a[i + 1]));
        }
        lemma_found_in_trimmed(found_on_line(f, read_lines(a)[0]), a.drop_first(), b.drop_first());
    }
}

/// A title that was saved in a session file is the title that the file gives its session, as long as
/// nothing before the head of the session gives it another one.
pub proof fn saved_title_is_shown(
    text: Seq<char>,
    session_id: Seq<char>,
    title: Seq<char>,
    next: Seq<Seq<char>>,
    created: Option<u64>,
    modified: Option<u64>,
)
    requires
        retitled_file(text_lines(text), session_id, title) == Ok::<
            Option<Seq<Seq<char>>>,
            Seq<char>,
        >(Some(next)),
        written_well(
            head_on(
                text_lines(text)[head_line(text_lines(text), session_id, title)],
                session_id,
                title,
            )->0,
        ),
        reads_again(
            head_on(
                text_lines(text)[head_line(text_lines(text), session_id, title)],
                session_id,
                title,
            )->0,
        ),
        !is_blank(title),
        found_in_lines(
            no_findings(),
            read_lines(text_lines(text).take(head_line(text_lines(text), session_id, title))),
        ).title.len() == 0,
    ensures
        file_summary(
            (ContentModel { created, modified, lines: read_lines(text_lines(file_of(next))) }),
            session_id,
        ).title == trimmed(title),
{
    saved_title_is_in_the_session_file(text, session_id, title, next);
    let before = text_lines(text);
    let at = head_line(before, session_id, title);
    let all = read_lines(next);
    let front = read_lines(next.take(at));
    let back = read_lines(next.skip(at));
    assert(all =~= front + back);
    lemma_found_in_two_parts(no_findings(), front, back);
    assert forall|i: int| 0 <= i < before.take(at).len() implies #[trigger] next.take(at)[i]
        == trimmed(before.take(at)[i]) by {
        assert(next[i] == trimmed(before[i]));
    }
    lemma_found_in_trimmed(no_findings(), before.take(at), next.take(at));
    let f = found_in_lines(no_findings(), front);
    assert(f.title.len() == 0);
    let row = json_read(next[at])->Ok_0;
    let payload = payload_of(row)->0;
    assert(back[0] == Some(next[at]));
    trimming_is_stable(title);
    let g = found_on_line(f, back[0]);
    assert(g == found_in_payload(f, payload));
    let names = seq![text_field(payload, "thread_name"@), text_field(payload, "title"@)];
    assert(first_filled(names) == Some(trimmed(title)));
    assert(g.title == trimmed(title));
    first_findings_stay(g, back.drop_first());
    assert(found_in_lines(f, back) == found_in_lines(g, back.drop_first()));
}

/// Whether a row of the database holds what was saved for a session.
pub open spec fn holds_saved(row: RowModel, saved: TitleRowModel) -> bool {
    &&& column_value(row, "id"@) == Some(SqlModel::Text(saved.id))
    &&& column_value(row, "title"@) == Some(SqlModel::Text(saved.title))
    &&& column_value(row, "updated_at"@) == Some(SqlModel::Integer(saved.updated_at))
}

/// A title that was saved in the database is the title of the session, and the time at which it was
/// saved is its time, whatever its file and the index say.
pub proof fn saved_title_has_the_last_word(
    row: RowModel,
    snapshot: SnapshotModel,
    title: Seq<char>,
    updated_at: Seq<char>,
    existing_created_at: Option<i64>,
    now: i64,
    in_files: Map<Seq<char>, SnapshotModel>,
    index: Map<Seq<char>, IndexModel>,
    threads: Map<Seq<char>, ThreadModel>,
)
    requires
        holds_saved(row, title_row(snapshot, title, updated_at, existing_created_at, now)),
        !is_blank(title),
        lookup(threads, lowercase(snapshot.id)) == thread_of(row),
    ensures
        thread_of(row) matches Some(thread) && thread.id == snapshot.id,
        session_at(in_files, index, threads, lowercase(snapshot.id)) matches Some(shown)
            && shown.title == title && shown.updated_at == Some(seconds_or(updated_at, now)),
{
}

/// Whether a line of a session file is the head of the session: an object whose payload is of the type
/// of heads and, where its identifier is a text, has that of the session, whatever the case of its
/// ASCII letters.
pub open spec fn is_head_of(row: JsonModel, session_id: Seq<char>) -> bool {
    &&& row is Object
    &&& row->Object_0.contains_key("payload"@)
    &&& row->Object_0["payload"@] is Object
    &&& ({
        let p = row->Object_0["payload"@]->Object_0;
        &&& says(p, "type"@, "session_meta"@)
        &&& p.contains_key("id"@) && p["id"@] is Text ==> ascii_lowercased(p["id"@]->Text_0)
            == ascii_lowercased(session_id)
    })
}

/// Whether two payloads have the same fields with the same values, but for the two titles, which the
/// second one has.
pub open spec fn differ_in_titles(
    a: Map<Seq<char>, JsonModel>,
    b: Map<Seq<char>, JsonModel>,
    title: Seq<char>,
) -> bool {
    &&& says(b, "thread_name"@, title)
    &&& says(b, "title"@, title)
    &&& forall|k: Seq<char>| #![trigger b.contains_key(k)] #![trigger a.contains_key(k)]
        k != "thread_name"@ && k != "title"@ ==> {
            &&& b.contains_key(k) <==> a.contains_key(k)
            &&& a.contains_key(k) ==> b[k] == a[k]
        }
}

/// Whether two lines have the same fields with the same values, but for the two titles in their
/// payloads, which the second one has.
pub open spec fn lines_differ_in_titles(a: JsonModel, b: JsonModel, title: Seq<char>) -> bool {
    &&& a is Object && b is Object
    &&& forall|k: Seq<char>| #![trigger b->Object_0.contains_key(k)]
        #![trigger a->Object_0.contains_key(k)]
        k != "payload"@ ==> {
            &&& b->Object_0.contains_key(k) <==> a->Object_0.contains_key(k)
            &&& a->Object_0.contains_key(k) ==> b->Object_0[k] == a->Object_0[k]
        }
    &&& a->Object_0.contains_key("payload"@) && a->Object_0["payload"@] is Object
    &&& b->Object_0.contains_key("payload"@) && b->Object_0["payload"@] is Object
    &&& differ_in_titles(
        a->Object_0["payload"@]->Object_0,
        b->Object_0["payload"@]->Object_0,
        title,
    )
}

/// Saving a title changes nothing in the head of the session but its two titles: every other field of
/// the line and of its payload is there exactly when it was there before, and has the value that it
/// had. A line that is not the head of the session is not changed at all.
pub proof fn saving_a_title_changes_nothing_else(
    row: JsonModel,
    session_id: Seq<char>,
    title: Seq<char>,
)
    ensures
        retitled_head(row, session_id, title) is Some <==> is_head_of(row, session_id),
        retitled_head(row, session_id, title) matches Some(next) ==> lines_differ_in_titles(
            row,
            next,
            title,
        ),
{
    reveal_strlit("session_meta");
    reveal_strlit("thread_name");
    reveal_strlit("title");
    assert("session_meta"@.len() == 12);
    assert("thread_name"@.len() != "title"@.len());
}

/// Whether a line of a session file is the head of the session.
pub open spec fn line_is_head_of(line: Seq<char>, session_id: Seq<char>) -> bool {
    &&& !is_blank(line)
    &&& json_read(trimmed(line)) matches Ok(row) && is_head_of(row, session_id)
}

/// Saving a title in a session file puts it into the first line that is the head of the session. That
/// line keeps all its other fields, and every other line is what it was but for white space at its
/// ends.
pub proof fn the_first_head_gets_the_title(
    list: Seq<Seq<char>>,
    session_id: Seq<char>,
    title: Seq<char>,
    at: int,
)
    requires
        0 <= at < list.len(),
        line_is_head_of(list[at], session_id),
        forall|i: int| 0 <= i < at ==> !line_is_head_of(#[trigger] list[i], session_id),
    ensures
        match retitled_file(list, session_id, title) {
            Ok(Some(next)) => {
                &&& next.len() == list.len()
                &&& forall|i: int|
                    0 <= i < next.len() && i != at ==> #[trigger] next[i] == trimmed(list[i])
                &&& exists|head: JsonModel|
                    {
                        &&& #[trigger] json_line(head) == Ok::<Seq<char>, Seq<char>>(next[at])
                        &&& lines_differ_in_titles(json_read(trimmed(list[at]))->Ok_0, head, title)
                    }
            },
            Ok(None) => false,
            Err(_) => exists|head: JsonModel|
                {
                    &&& #[trigger] json_line(head) is Err
                    &&& lines_differ_in_titles(json_read(trimmed(list[at]))->Ok_0, head, title)
                },
        },
{
    assert forall|i: int| 0 <= i < at implies head_on(#[trigger] list[i], session_id, title) is None by {
        assert(!line_is_head_of(list[i], session_id));
        if json_read(trimmed(list[i])) is Ok {
            saving_a_title_changes_nothing_else(
                json_read(trimmed(list[i]))->Ok_0,
                session_id,
                title,
            );
        }
    }
    saving_a_title_changes_nothing_else(json_read(trimmed(list[at]))->Ok_0, session_id, title);
    lemma_head_line(list, session_id, title, at);
    let head = head_on(list[at], session_id, title)->0;
    assert(json_line(head) is Ok || json_line(head) is Err);
}

/// A session file without a head of the session is not written.
pub proof fn files_without_a_head_stay(
    list: Seq<Seq<char>>,
    session_id: Seq<char>,
    title: Seq<char>,
)
    requires
        forall|i: int| 0 <= i < list.len() ==> !line_is_head_of(#[trigger] list[i], session_id),
    ensures
        retitled_file(list, session_id, title) == Ok::<Option<Seq<Seq<char>>>, Seq<char>>(None),
{
    assert forall|i: int| 0 <= i < list.len() implies head_on(
        #[trigger] list[i],
        session_id,
        title,
    ) is None by {
        assert(!line_is_head_of(list[i], session_id));
        if json_read(trimmed(list[i])) is Ok {
            saving_a_title_changes_nothing_else(
                json_read(trimmed(list[i]))->Ok_0,
                session_id,
                title,
            );
        }
    }
    lemma_head_line(list, session_id, title, list.len() as int);
}

/// The head of the session keeps its other fields in the file, too: when the line that was written is
/// read again, every field but the two titles is there exactly when it was there before, and its value
/// is the same but for what a number with a fraction may lose. The head must be such that it can be
/// read again once it was written.
pub proof fn saved_heads_keep_their_fields(
    list: Seq<Seq<char>>,
    session_id: Seq<char>,
    title: Seq<char>,
    next: Seq<Seq<char>>,
    at: int,
)
    requires
        0 <= at < list.len(),
        line_is_head_of(list[at], session_id),
        forall|i: int| 0 <= i < at ==> !line_is_head_of(#[trigger] list[i], session_id),
        retitled_file(list, session_id, title) == Ok::<Option<Seq<Seq<char>>>, Seq<char>>(
            Some(next),
        ),
        written_well(head_on(list[at], session_id, title)->0),
        reads_again(head_on(list[at], session_id, title)->0),
    ensures
        ({
            let before = json_read(trimmed(list[at]))->Ok_0->Object_0;
            let p = before["payload"@]->Object_0;
            &&& json_read(next[at]) matches Ok(JsonModel::Object(after)) && {
                &&& forall|k: Seq<char>| #![trigger after.contains_key(k)]
                    #![trigger before.contains_key(k)]
                    after.contains_key(k) <==> before.contains_key(k)
                &&& forall|k: Seq<char>| #![trigger before.contains_key(k)] #![trigger before[k]]
                    before.contains_key(k) && k != "payload"@ ==> same_but_fractions(
                        before[k],
                        after[k],
                    )
                &&& after["payload"@] matches JsonModel::Object(q) && {
                    &&& says(q, "thread_name"@, title)
                    &&& says(q, "title"@, title)
                    &&& forall|k: Seq<char>| #![trigger p.contains_key(k)] #![trigger p[k]]
                        #![trigger q.contains_key(k)]
                        k != "thread_name"@ && k != "title"@ ==> {
                            &&& q.contains_key(k) <==> p.contains_key(k)
                            &&& p.contains_key(k) ==> same_but_fractions(p[k], q[k])
                        }
                }
            }
        }),
{
    reveal_with_fuel(same_but_fractions, 4);
    the_first_head_gets_the_title(list, session_id, title, at);
    assert forall|i: int| 0 <= i < at implies head_on(#[trigger] list[i], session_id, title) is None by {
        assert(!line_is_head_of(list[i], session_id));
        if json_read(trimmed(list[i])) is Ok {
            saving_a_title_changes_nothing_else(
                json_read(trimmed(list[i]))->Ok_0,
                session_id,
                title,
            );
        }
    }
    let row = json_read(trimmed(list[at]))->Ok_0;
    saving_a_title_changes_nothing_else(row, session_id, title);
    lemma_head_line(list, session_id, title, at);
    let head = head_on(list[at], session_id, title)->0;
    assert(json_line(head) == Ok::<Seq<char>, Seq<char>>(next[at]));
    let back = json_read(next[at])->Ok_0;
    assert(same_but_fractions(head, back));
    let before = row->Object_0;
    let after = back->Object_0;
    let written = head->Object_0;
    assert(written.dom() == after.dom());
    assert(written.contains_key("payload"@));
    assert(same_but_fractions(written["payload"@], after["payload"@]));
    let p = before["payload"@]->Object_0;
    let w = written["payload"@]->Object_0;
    let q = after["payload"@]->Object_0;
    assert(w.dom() == q.dom());
    assert(same_but_fractions(w["thread_name"@], q["thread_name"@]));
    assert(same_but_fractions(w["title"@], q["title"@]));
    assert forall|k: Seq<char>| #![trigger after.contains_key(k)] after.contains_key(k)
        <==> before.contains_key(k) by {
        assert(written.dom().contains(k) == after.dom().contains(k));
        assert(written.contains_key(k) || !written.contains_key(k));
    }
    assert forall|k: Seq<char>| before.contains_key(k) && k
        != "payload"@ implies same_but_fractions(#[trigger] before[k], after[k]) by {
        assert(written.contains_key(k));
        assert(same_but_fractions(written[k], after[k]));
    }
    assert forall|k: Seq<char>| k != "thread_name"@ && k != "title"@ implies (
    #[trigger] q.contains_key(k) <==> p.contains_key(k)) by {
        assert(w.dom().contains(k) == q.dom().contains(k));
        assert(w.contains_key(k) || !w.contains_key(k));
    }
    assert forall|k: Seq<char>|
        k != "thread_name"@ && k != "title"@ && p.contains_key(k) implies same_but_fractions(
        #[trigger] p[k],
        q[k],
    ) by {
        assert(w.contains_key(k));
        assert(same_but_fractions(w[k], q[k]));
    }
    assert(q.dom().contains("thread_name"@) && q.dom().contains("title"@)) by {
        assert(w.dom().contains("thread_name"@) && w.dom().contains("title"@));
    }
}

/// The database gets the identifier, the path and the directory of the session as they are, the title
/// twice, and the time of the saving. The time at which the session was created is what the database
/// says, or else what is known of the session, or else the time of the saving.
pub proof fn the_database_gets_the_session(
    snapshot: SnapshotModel,
    title: Seq<char>,
    updated_at: Seq<char>,
    existing_created_at: Option<i64>,
    now: i64,
)
    ensures
        ({
            let row = title_row(snapshot, title, updated_at, existing_created_at, now);
            &&& row.id == snapshot.id
            &&& row.cwd == snapshot.cwd
            &&& row.title == title
            &&& row.first_user_message == title
            &&& snapshot.rollout_path matches Some(path) ==> row.rollout_path == path
            &&& snapshot.rollout_path is None ==> row.rollout_path.len() == 0
            &&& !is_blank(snapshot.model_provider) ==> row.model_provider == snapshot.model_provider
            &&& is_blank(snapshot.model_provider) ==> row.model_provider == "openai"@
            &&& timestamp_of(updated_at) matches Some(t) ==> row.updated_at == t
            &&& timestamp_of(updated_at) is None ==> row.updated_at == now
            &&& existing_created_at matches Some(t) ==> row.created_at == t
            &&& existing_created_at is None ==> (snapshot.created_at matches Some(t)
                ==> row.created_at == t)
            &&& existing_created_at is None && snapshot.created_at is None ==> row.created_at
                == row.updated_at
            &&& row.source == "cli"@
            &&& row.approval_mode == "never"@
            &&& row.sandbox_policy == "{\"type\":\"danger-full-access\"}"@
            &&& row.cli_version == "cockpit-tools"@
        }),
{
}

/// The number of instances that something holds of is how many of them are left where the others are
/// left out.
pub proof fn instances_are_counted_one_by_one(
    writes: Seq<WriteModel>,
    p: spec_fn(WriteModel) -> bool,
)
    ensures
        count_where(writes, p) == writes.filter(p).len(),
    decreases writes.len(),
{
    reveal(Seq::filter);
    if writes.len() > 0 {
        instances_are_counted_one_by_one(writes.drop_last(), p);
    }
}

/// There is a warning for every write that failed, and one for every session file that was not there,
/// with the name of the instance and the reason; there are no others, and instances follow each other
/// in their order.
pub proof fn failed_writes_are_told(writes: Seq<WriteModel>, w: WriteModel)
    ensures
        all_write_warnings(writes.push(w)).len() == all_write_warnings(writes).len() + (
        if w.rollout == Ok::<bool, Seq<char>>(true) {
            0int
        } else {
            1
        }) + (if w.index is Ok {
            0int
        } else {
            1
        }) + (if w.sqlite is Ok {
            0int
        } else {
            1
        }),
        all_write_warnings(writes).is_prefix_of(all_write_warnings(writes.push(w))),
        w.rollout == Ok::<bool, Seq<char>>(false) ==> all_write_warnings(writes.push(w)).contains(
            w.instance_name
                + ": session file update skipped because rollout file is missing."@,
        ),
        w.rollout matches Err(e) ==> all_write_warnings(writes.push(w)).contains(
            w.instance_name + ": session file update failed: "@ + e,
        ),
        w.index matches Err(e) ==> all_write_warnings(writes.push(w)).contains(
            w.instance_name + ": session_index update failed: "@ + e,
        ),
        w.sqlite matches Err(e) ==> all_write_warnings(writes.push(w)).contains(
            w.instance_name + ": sqlite update failed: "@ + e,
        ),
        all_write_warnings(Seq::<WriteModel>::empty()).len() == 0,
{
    let all = writes.push(w);
    assert(all.drop_last() =~= writes);
    let before = all_write_warnings(writes);
    let new = write_warnings(w);
    assert(all_write_warnings(all) =~= before + new);
    assert(before =~= (before + new).take(before.len() as int));
    reveal_strlit(": ");
    reveal_strlit(": session file update skipped because rollout file is missing.");
    reveal_strlit("session file update skipped because rollout file is missing.");
    reveal_strlit(": session file update failed: ");
    reveal_strlit("session file update failed: ");
    reveal_strlit(": session_index update failed: ");
    reveal_strlit("session_index update failed: ");
    reveal_strlit(": sqlite update failed: ");
    reveal_strlit("sqlite update failed: ");
    let n = before.len() as int;
    let total = all_write_warnings(all);
    assert(w.rollout == Ok::<bool, Seq<char>>(false) ==> total[n] =~= w.instance_name
        + ": session file update skipped because rollout file is missing."@);
    assert(w.rollout matches Err(e) ==> total[n] =~= w.instance_name
        + ": session file update failed: "@ + e);
    let m = if w.rollout == Ok::<bool, Seq<char>>(true) {
        n
    } else {
        n + 1
    };
    assert(w.index matches Err(e) ==> total[m] =~= w.instance_name
        + ": session_index update failed: "@ + e);
    let l = if w.index is Ok {
        m
    } else {
        m + 1
    };
    assert(w.sqlite matches Err(e) ==> total[l] =~= w.instance_name + ": sqlite update failed: "@ + e);
}

/// What was done in some instances is summed up with their number, and with that of the warnings where
/// there are any.
pub proof fn messages_count_instances_and_warnings(what: Seq<char>, instances: nat, warnings: nat)
    ensures
        done_message(what, instances, 0) == what + " in "@ + digits(instances) + " instance(s)."@,
        warnings > 0 ==> done_message(what, instances, warnings) == what + " in "@ + digits(
            instances,
        ) + " instance(s), with "@ + digits(warnings) + " warning(s)."@,
{
}

} // verus!
