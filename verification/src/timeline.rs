//! The timeline of a session: what each line of its file says.
use vstd::prelude::*;

use crate::clock::{
    normalize_timestamp_string, normalized_time, rfc3339_read, rfc3339_written,
};
use crate::content::{
    command_title, commands_write_to_two_streams, empty_parts_are_left_out, extract_message_content, extract_reasoning_summary, field_as_text, field_text,
    filled, format_command_title, get_text_or, get_text_owned, is_spoken, join_filled,
    join_stdout_stderr, joined_filled, lemma_spoken_is_heard, message_content,
    messages_are_what_was_spoken, reasoning_says_its_content, reasoning_summary, spoken, streams,
    text_or,
};
use crate::decimal::{decimal_notation_reads_back, digits, unsigned_text};
use crate::json::{
    as_text, json_get, says, tells, tells_or, text_field, text_or_empty, Json, JsonModel, JsonObject,
};
use crate::json_text::{
    indented, json_read, parse_json, shows, stringified, stringify_map, write_indented,
};
use crate::phrase::{
    first_filled, first_non_empty_owned, is_folded, summarize_text, summary_is_short_and_stable,
    summary_of,
};
use crate::text::{
    folded, folding_keeps_the_words, is_blank, is_space, joined, lemma_trimmed_fixed, or_else,
    same_text, trim, trim_end, trim_start, trimmed, trimming_is_stable,
    trimming_keeps_what_is_inside,
};

verus! {

/// One line of a session file, made ready for display.
#[derive(Debug, Clone, PartialEq, Eq)]
pub struct CodexTimelineEvent {
    pub id: String,
    pub timestamp: String,
    pub kind: String,
    pub role: String,
    pub title: String,
    pub summary: String,
    pub body: String,
    pub raw: String,
    pub call_id: String,
    pub status: String,
}

/// What an event says.
#[verifier::ext_equal]
pub struct EventModel {
    pub id: Seq<char>,
    pub timestamp: Seq<char>,
    pub kind: Seq<char>,
    pub role: Seq<char>,
    pub title: Seq<char>,
    pub summary: Seq<char>,
    pub body: Seq<char>,
    pub raw: Seq<char>,
    pub call_id: Seq<char>,
    pub status: Seq<char>,
}

impl DeepView for CodexTimelineEvent {
    type V = EventModel;

    open spec fn deep_view(&self) -> EventModel {
        EventModel {
            id: self.id@,
            timestamp: self.timestamp@,
            kind: self.kind@,
            role: self.role@,
            title: self.title@,
            summary: self.summary@,
            body: self.body@,
            raw: self.raw@,
            call_id: self.call_id@,
            status: self.status@,
        }
    }
}

/// What the payload of a line has to say: whose it is, what it is about, the text to be shown in
/// brief and the text to be shown in full.
#[verifier::ext_equal]
pub struct Telling {
    pub kind: Seq<char>,
    pub role: Seq<char>,
    pub title: Seq<char>,
    pub brief: Seq<char>,
    pub body: Seq<char>,
    pub call_id: Seq<char>,
    pub status: Seq<char>,
}

struct Told {
    kind: String,
    role: String,
    title: String,
    brief: String,
    body: String,
    call_id: String,
    status: String,
}

impl View for Told {
    type V = Telling;

    closed spec fn view(&self) -> Telling {
        Telling {
            kind: self.kind@,
            role: self.role@,
            title: self.title@,
            brief: self.brief@,
            body: self.body@,
            call_id: self.call_id@,
            status: self.status@,
        }
    }
}

/// A payload in indented form.
pub open spec fn whole(payload: Map<Seq<char>, JsonModel>) -> Seq<char> {
    indented(JsonModel::Object(payload))
}

/// The text of a user's message; where it has none, the payload.
pub open spec fn user_text(p: Map<Seq<char>, JsonModel>) -> Seq<char> {
    match text_field(p, "message"@) {
        Some(message) if !is_blank(message) => message,
        _ => whole(p),
    }
}

/// The output of a command: what was put together of it, or else what it wrote.
pub open spec fn command_output(p: Map<Seq<char>, JsonModel>) -> Seq<char> {
    match first_filled(
        seq![
            text_field(p, "aggregated_output"@),
            text_field(p, "formatted_output"@),
            filled(streams(p)),
        ],
    ) {
        Some(s) => s,
        None => Seq::empty(),
    }
}

/// What a patch wrote and changed.
pub open spec fn patch_text(p: Map<Seq<char>, JsonModel>) -> Seq<char> {
    joined_filled(
        seq![
            trimmed(text_or_empty(p, "stdout"@)),
            trimmed(text_or_empty(p, "stderr"@)),
            trimmed(field_text(p, "changes"@)),
        ],
        "\n\n"@,
    )
}

/// What the head of a session says.
pub open spec fn session_meta_telling(p: Map<Seq<char>, JsonModel>) -> Telling {
    Telling {
        kind: "session_meta"@,
        role: "system"@,
        title: "Session Meta"@,
        brief: "cwd: "@ + text_or_empty(p, "cwd"@) + " | provider: "@ + text_or_empty(p, "model_provider"@),
        body: whole(p),
        call_id: Seq::empty(),
        status: Seq::empty(),
    }
}

/// What the context of a turn says.
pub open spec fn turn_context_telling(p: Map<Seq<char>, JsonModel>) -> Telling {
    Telling {
        kind: "turn_context"@,
        role: "system"@,
        title: "Turn Context"@,
        brief: or_else(field_text(p, "summary"@), whole(p)),
        body: whole(p),
        call_id: Seq::empty(),
        status: Seq::empty(),
    }
}

/// What the user says.
pub open spec fn user_message_telling(p: Map<Seq<char>, JsonModel>) -> Telling {
    Telling {
        kind: "user_message"@,
        role: "user"@,
        title: "User"@,
        brief: user_text(p),
        body: user_text(p),
        call_id: Seq::empty(),
        status: Seq::empty(),
    }
}

/// What the assistant says.
pub open spec fn agent_message_telling(p: Map<Seq<char>, JsonModel>) -> Telling {
    Telling {
        kind: "assistant_message"@,
        role: "assistant"@,
        title: "Assistant"@,
        brief: text_or(p, "message"@, whole(p)),
        body: text_or(p, "message"@, whole(p)),
        call_id: Seq::empty(),
        status: text_or_empty(p, "phase"@),
    }
}

/// What a reasoning step says.
pub open spec fn reasoning_telling(p: Map<Seq<char>, JsonModel>) -> Telling {
    Telling {
        kind: "reasoning"@,
        role: "assistant"@,
        title: "Reasoning"@,
        brief: reasoning_summary(p),
        body: or_else(reasoning_summary(p), whole(p)),
        call_id: Seq::empty(),
        status: Seq::empty(),
    }
}

/// What the call of a tool says.
pub open spec fn function_call_telling(p: Map<Seq<char>, JsonModel>) -> Telling {
    Telling {
        kind: "function_call"@,
        role: "tool"@,
        title: text_or(p, "name"@, "Tool"@),
        brief: text_or_empty(p, "arguments"@),
        body: text_or_empty(p, "arguments"@),
        call_id: text_or_empty(p, "call_id"@),
        status: Seq::empty(),
    }
}

/// What a tool gives back.
pub open spec fn function_call_output_telling(p: Map<Seq<char>, JsonModel>) -> Telling {
    Telling {
        kind: "function_call_output"@,
        role: "tool"@,
        title: "Tool Output"@,
        brief: field_text(p, "output"@),
        body: field_text(p, "output"@),
        call_id: text_or_empty(p, "call_id"@),
        status: Seq::empty(),
    }
}

/// What the end of a command says.
pub open spec fn exec_command_telling(p: Map<Seq<char>, JsonModel>) -> Telling {
    Telling {
        kind: "exec_command"@,
        role: "tool"@,
        title: command_title(p),
        brief: command_output(p),
        body: command_output(p),
        call_id: text_or_empty(p, "call_id"@),
        status: text_or(p, "status"@, field_text(p, "exit_code"@)),
    }
}

/// What the end of a patch says.
pub open spec fn patch_telling(p: Map<Seq<char>, JsonModel>) -> Telling {
    Telling {
        kind: "patch"@,
        role: "tool"@,
        title: "Patch Apply"@,
        brief: patch_text(p),
        body: patch_text(p),
        call_id: text_or_empty(p, "call_id"@),
        status: text_or(p, "status"@, field_text(p, "success"@)),
    }
}

/// What a search of the web says.
pub open spec fn web_search_telling(p: Map<Seq<char>, JsonModel>) -> Telling {
    Telling {
        kind: "web_search"@,
        role: "tool"@,
        title: "Web Search"@,
        brief: or_else(text_or_empty(p, "query"@), field_text(p, "action"@)),
        body: or_else(field_text(p, "action"@), whole(p)),
        call_id: text_or_empty(p, "call_id"@),
        status: text_or_empty(p, "status"@),
    }
}

/// What the call of a custom tool says.
pub open spec fn custom_tool_call_telling(p: Map<Seq<char>, JsonModel>) -> Telling {
    Telling {
        kind: "custom_tool"@,
        role: "tool"@,
        title: text_or(p, "name"@, "Custom Tool"@),
        brief: field_text(p, "input"@),
        body: field_text(p, "input"@),
        call_id: text_or_empty(p, "call_id"@),
        status: text_or_empty(p, "status"@),
    }
}

/// What a custom tool gives back.
pub open spec fn custom_tool_output_telling(p: Map<Seq<char>, JsonModel>) -> Telling {
    Telling {
        kind: "custom_tool"@,
        role: "tool"@,
        title: "Custom Tool Output"@,
        brief: field_text(p, "output"@),
        body: field_text(p, "output"@),
        call_id: text_or_empty(p, "call_id"@),
        status: Seq::empty(),
    }
}

/// What the view of an image says.
pub open spec fn image_telling(p: Map<Seq<char>, JsonModel>) -> Telling {
    Telling {
        kind: "image"@,
        role: "tool"@,
        title: "View Image"@,
        brief: text_or_empty(p, "path"@),
        body: text_or_empty(p, "path"@),
        call_id: text_or_empty(p, "call_id"@),
        status: Seq::empty(),
    }
}

/// What a count of tokens says.
pub open spec fn token_count_telling(p: Map<Seq<char>, JsonModel>) -> Telling {
    Telling {
        kind: "token_count"@,
        role: "system"@,
        title: "Token Count"@,
        brief: field_text(p, "info"@),
        body: whole(p),
        call_id: Seq::empty(),
        status: Seq::empty(),
    }
}

/// What an error says.
pub open spec fn error_telling(p: Map<Seq<char>, JsonModel>) -> Telling {
    Telling {
        kind: "error"@,
        role: "system"@,
        title: "Error"@,
        brief: text_or(p, "message"@, "Unknown error"@),
        body: whole(p),
        call_id: Seq::empty(),
        status: "error"@,
    }
}

/// What a message says, by the role of its author.
pub open spec fn message_telling(p: Map<Seq<char>, JsonModel>) -> Telling {
    let role = text_or_empty(p, "role"@);
    Telling {
        kind: if role == "user"@ {
            "user_message"@
        } else if role == "assistant"@ {
            "assistant_message"@
        } else if role == "developer"@ {
            "developer_message"@
        } else {
            "unknown"@
        },
        role,
        title: if role == "user"@ {
            "User"@
        } else if role == "assistant"@ {
            "Assistant"@
        } else if role == "developer"@ {
            "Developer"@
        } else {
            "Message"@
        },
        brief: message_content(p),
        body: or_else(message_content(p), whole(p)),
        call_id: Seq::empty(),
        status: Seq::empty(),
    }
}

/// Whether a payload of that type marks a step of a task.
pub open spec fn is_task_type(payload_type: Seq<char>) -> bool {
    ||| payload_type == "task_started"@
    ||| payload_type == "task_complete"@
    ||| payload_type == "item_completed"@
    ||| payload_type == "turn_aborted"@
    ||| payload_type == "thread_rolled_back"@
    ||| payload_type == "context_compacted"@
    ||| payload_type == "compacted"@
}

/// What a step of a task says.
pub open spec fn task_telling(payload_type: Seq<char>, p: Map<Seq<char>, JsonModel>) -> Telling {
    Telling {
        kind: "task"@,
        role: "system"@,
        title: payload_type,
        brief: whole(p),
        body: whole(p),
        call_id: Seq::empty(),
        status: text_or_empty(p, "reason"@),
    }
}

/// What a payload says, where its type is known.
pub open spec fn telling(payload_type: Seq<char>, p: Map<Seq<char>, JsonModel>) -> Option<Telling> {
    if payload_type == "session_meta"@ {
        Some(session_meta_telling(p))
    } else if payload_type == "turn_context"@ {
        Some(turn_context_telling(p))
    } else if payload_type == "message"@ {
        Some(message_telling(p))
    } else if payload_type == "user_message"@ {
        Some(user_message_telling(p))
    } else if payload_type == "agent_message"@ {
        Some(agent_message_telling(p))
    } else if payload_type == "reasoning"@ {
        Some(reasoning_telling(p))
    } else if payload_type == "function_call"@ {
        Some(function_call_telling(p))
    } else if payload_type == "function_call_output"@ {
        Some(function_call_output_telling(p))
    } else if payload_type == "exec_command_end"@ {
        Some(exec_command_telling(p))
    } else if payload_type == "patch_apply_end"@ {
        Some(patch_telling(p))
    } else if payload_type == "web_search_call"@ || payload_type == "web_search_end"@ {
        Some(web_search_telling(p))
    } else if payload_type == "custom_tool_call"@ {
        Some(custom_tool_call_telling(p))
    } else if payload_type == "custom_tool_call_output"@ {
        Some(custom_tool_output_telling(p))
    } else if payload_type == "view_image_tool_call"@ {
        Some(image_telling(p))
    } else if payload_type == "token_count"@ {
        Some(token_count_telling(p))
    } else if is_task_type(payload_type) {
        Some(task_telling(payload_type, p))
    } else if payload_type == "error"@ {
        Some(error_telling(p))
    } else {
        None
    }
}

/// The fields of the payload of a line.
pub open spec fn payload_of(row: JsonModel) -> Option<Map<Seq<char>, JsonModel>> {
    match json_get(row, "payload"@) {
        Some(JsonModel::Object(fields)) => Some(fields),
        _ => None,
    }
}

/// The type of the payload of a line; empty where there is none.
pub open spec fn payload_type_of(row: JsonModel) -> Seq<char> {
    match payload_of(row) {
        Some(p) => text_or_empty(p, "type"@),
        None => Seq::empty(),
    }
}

/// The type of a line; empty where there is none.
pub open spec fn line_type_of(row: JsonModel) -> Seq<char> {
    match as_text(json_get(row, "type"@)) {
        Some(s) => s,
        None => Seq::empty(),
    }
}

/// The point in time of a line, in UTC; empty where there is none.
pub open spec fn line_time_of(row: JsonModel) -> Seq<char> {
    match as_text(json_get(row, "timestamp"@)) {
        Some(s) => normalized_time(s),
        None => Seq::empty(),
    }
}

/// A line that says nothing known: the line itself.
pub open spec fn plain_event(index: nat, row: JsonModel) -> EventModel {
    EventModel {
        id: "line-"@ + digits(index),
        timestamp: line_time_of(row),
        kind: "unknown"@,
        role: line_type_of(row),
        title: or_else(payload_type_of(row), line_type_of(row)),
        summary: summary_of(indented(row), 180),
        body: indented(row),
        raw: indented(row),
        call_id: Seq::empty(),
        status: Seq::empty(),
    }
}

/// The event that a line of a session file stands for.
pub open spec fn event_of(index: nat, row: JsonModel) -> EventModel {
    let plain = plain_event(index, row);
    match payload_of(row) {
        Some(p) => match telling(payload_type_of(row), p) {
            Some(t) => EventModel {
                kind: t.kind,
                role: t.role,
                title: t.title,
                summary: summary_of(t.brief, 180),
                body: t.body,
                call_id: t.call_id,
                status: t.status,
                ..plain
            },
            None => plain,
        },
        None => plain,
    }
}

// ---------------------------------------------------------------------------------------------
// Reading the payloads
// ---------------------------------------------------------------------------------------------
fn own(s: Option<&str>) -> (r: Option<String>)
    ensures
        r.deep_view() == s.deep_view(),
{
    match s {
        Some(s) => Some(s.to_owned()),
        None => None,
    }
}

fn tell_session_meta(payload: &JsonObject) -> (r: Told)
    ensures
        r@ == session_meta_telling(payload@),
{
    let mut brief = "cwd: ".to_owned();
    brief.append(payload.get_text_or_empty("cwd"));
    brief.append(" | provider: ");
    brief.append(payload.get_text_or_empty("model_provider"));
    Told {
        kind: "session_meta".to_owned(),
        role: "system".to_owned(),
        title: "Session Meta".to_owned(),
        brief,
        body: stringify_map(payload),
        call_id: String::new(),
        status: String::new(),
    }
}

fn tell_turn_context(payload: &JsonObject) -> (r: Told)
    ensures
        r@ == turn_context_telling(payload@),
{
    let body = stringify_map(payload);
    let summary = field_as_text(payload, "summary");
    let brief = if summary.as_str().is_empty() {
        body.clone()
    } else {
        summary
    };
    Told {
        kind: "turn_context".to_owned(),
        role: "system".to_owned(),
        title: "Turn Context".to_owned(),
        brief,
        body,
        call_id: String::new(),
        status: String::new(),
    }
}

fn tell_user_message(payload: &JsonObject) -> (r: Told)
    ensures
        r@ == user_message_telling(payload@),
{
    let body = match payload.get_text("message") {
        Some(message) if !trim(message).is_empty() => message.to_owned(),
        _ => stringify_map(payload),
    };
    Told {
        kind: "user_message".to_owned(),
        role: "user".to_owned(),
        title: "User".to_owned(),
        brief: body.clone(),
        body,
        call_id: String::new(),
        status: String::new(),
    }
}

fn tell_agent_message(payload: &JsonObject) -> (r: Told)
    ensures
        r@ == agent_message_telling(payload@),
{
    let body = match payload.get_text("message") {
        Some(message) => message.to_owned(),
        None => stringify_map(payload),
    };
    Told {
        kind: "assistant_message".to_owned(),
        role: "assistant".to_owned(),
        title: "Assistant".to_owned(),
        brief: body.clone(),
        body,
        call_id: String::new(),
        status: get_text_owned(payload, "phase"),
    }
}

fn tell_reasoning(payload: &JsonObject) -> (r: Told)
    ensures
        r@ == reasoning_telling(payload@),
{
    let summary = extract_reasoning_summary(payload);
    let body = if summary.as_str().is_empty() {
        stringify_map(payload)
    } else {
        summary.clone()
    };
    Told {
        kind: "reasoning".to_owned(),
        role: "assistant".to_owned(),
        title: "Reasoning".to_owned(),
        brief: summary,
        body,
        call_id: String::new(),
        status: String::new(),
    }
}

fn tell_function_call(payload: &JsonObject) -> (r: Told)
    ensures
        r@ == function_call_telling(payload@),
{
    Told {
        kind: "function_call".to_owned(),
        role: "tool".to_owned(),
        title: get_text_or(payload, "name", "Tool"),
        brief: get_text_owned(payload, "arguments"),
        body: get_text_owned(payload, "arguments"),
        call_id: get_text_owned(payload, "call_id"),
        status: String::new(),
    }
}

fn tell_function_call_output(payload: &JsonObject) -> (r: Told)
    ensures
        r@ == function_call_output_telling(payload@),
{
    let body = field_as_text(payload, "output");
    Told {
        kind: "function_call_output".to_owned(),
        role: "tool".to_owned(),
        title: "Tool Output".to_owned(),
        brief: body.clone(),
        body,
        call_id: get_text_owned(payload, "call_id"),
        status: String::new(),
    }
}

fn tell_exec_command(payload: &JsonObject) -> (r: Told)
    ensures
        r@ == exec_command_telling(payload@),
{
    let outputs: [Option<String>; 3] = [
        own(payload.get_text("aggregated_output")),
        own(payload.get_text("formatted_output")),
        join_stdout_stderr(payload),
    ];
    proof {
        assert(outputs.deep_view() =~= seq![
            text_field(payload@, "aggregated_output"@),
            text_field(payload@, "formatted_output"@),
            filled(streams(payload@)),
        ]);
    }
    let body = first_non_empty_owned(&outputs);
    let status = match payload.get_text("status") {
        Some(status) => status.to_owned(),
        None => field_as_text(payload, "exit_code"),
    };
    Told {
        kind: "exec_command".to_owned(),
        role: "tool".to_owned(),
        title: format_command_title(payload),
        brief: body.clone(),
        body,
        call_id: get_text_owned(payload, "call_id"),
        status,
    }
}

fn tell_patch(payload: &JsonObject) -> (r: Told)
    ensures
        r@ == patch_telling(payload@),
{
    let changes = field_as_text(payload, "changes");
    let mut parts: Vec<String> = Vec::new();
    parts.push(trim(payload.get_text_or_empty("stdout")).to_owned());
    parts.push(trim(payload.get_text_or_empty("stderr")).to_owned());
    parts.push(trim(changes.as_str()).to_owned());
    proof {
        assert(parts.deep_view() =~= seq![
            trimmed(text_or_empty(payload@, "stdout"@)),
            trimmed(text_or_empty(payload@, "stderr"@)),
            trimmed(field_text(payload@, "changes"@)),
        ]);
    }
    let body = join_filled(&parts, "\n\n");
    let status = match payload.get_text("status") {
        Some(status) => status.to_owned(),
        None => field_as_text(payload, "success"),
    };
    Told {
        kind: "patch".to_owned(),
        role: "tool".to_owned(),
        title: "Patch Apply".to_owned(),
        brief: body.clone(),
        body,
        call_id: get_text_owned(payload, "call_id"),
        status,
    }
}

fn tell_web_search(payload: &JsonObject) -> (r: Told)
    ensures
        r@ == web_search_telling(payload@),
{
    let query = payload.get_text_or_empty("query");
    let action = field_as_text(payload, "action");
    let brief = if !query.is_empty() {
        query.to_owned()
    } else {
        action.clone()
    };
    let body = if action.as_str().is_empty() {
        stringify_map(payload)
    } else {
        action
    };
    Told {
        kind: "web_search".to_owned(),
        role: "tool".to_owned(),
        title: "Web Search".to_owned(),
        brief,
        body,
        call_id: get_text_owned(payload, "call_id"),
        status: get_text_owned(payload, "status"),
    }
}

fn tell_custom_tool_call(payload: &JsonObject) -> (r: Told)
    ensures
        r@ == custom_tool_call_telling(payload@),
{
    let body = field_as_text(payload, "input");
    Told {
        kind: "custom_tool".to_owned(),
        role: "tool".to_owned(),
        title: get_text_or(payload, "name", "Custom Tool"),
        brief: body.clone(),
        body,
        call_id: get_text_owned(payload, "call_id"),
        status: get_text_owned(payload, "status"),
    }
}

fn tell_custom_tool_output(payload: &JsonObject) -> (r: Told)
    ensures
        r@ == custom_tool_output_telling(payload@),
{
    let body = field_as_text(payload, "output");
    Told {
        kind: "custom_tool".to_owned(),
        role: "tool".to_owned(),
        title: "Custom Tool Output".to_owned(),
        brief: body.clone(),
        body,
        call_id: get_text_owned(payload, "call_id"),
        status: String::new(),
    }
}

fn tell_image(payload: &JsonObject) -> (r: Told)
    ensures
        r@ == image_telling(payload@),
{
    Told {
        kind: "image".to_owned(),
        role: "tool".to_owned(),
        title: "View Image".to_owned(),
        brief: get_text_owned(payload, "path"),
        body: get_text_owned(payload, "path"),
        call_id: get_text_owned(payload, "call_id"),
        status: String::new(),
    }
}

fn tell_token_count(payload: &JsonObject) -> (r: Told)
    ensures
        r@ == token_count_telling(payload@),
{
    Told {
        kind: "token_count".to_owned(),
        role: "system".to_owned(),
        title: "Token Count".to_owned(),
        brief: field_as_text(payload, "info"),
        body: stringify_map(payload),
        call_id: String::new(),
        status: String::new(),
    }
}

fn tell_error(payload: &JsonObject) -> (r: Told)
    ensures
        r@ == error_telling(payload@),
{
    Told {
        kind: "error".to_owned(),
        role: "system".to_owned(),
        title: "Error".to_owned(),
        brief: get_text_or(payload, "message", "Unknown error"),
        body: stringify_map(payload),
        call_id: String::new(),
        status: "error".to_owned(),
    }
}

fn tell_message(payload: &JsonObject) -> (r: Told)
    ensures
        r@ == message_telling(payload@),
{
    let role = payload.get_text_or_empty("role");
    let content = extract_message_content(payload);
    let (kind, title) = if same_text(role, "user") {
        ("user_message", "User")
    } else if same_text(role, "assistant") {
        ("assistant_message", "Assistant")
    } else if same_text(role, "developer") {
        ("developer_message", "Developer")
    } else {
        ("unknown", "Message")
    };
    let body = if content.as_str().is_empty() {
        stringify_map(payload)
    } else {
        content.clone()
    };
    Told {
        kind: kind.to_owned(),
        role: role.to_owned(),
        title: title.to_owned(),
        brief: content,
        body,
        call_id: String::new(),
        status: String::new(),
    }
}

fn tell_task(payload_type: &str, payload: &JsonObject) -> (r: Told)
    ensures
        r@ == task_telling(payload_type@, payload@),
{
    let body = stringify_map(payload);
    Told {
        kind: "task".to_owned(),
        role: "system".to_owned(),
        title: payload_type.to_owned(),
        brief: body.clone(),
        body,
        call_id: String::new(),
        status: get_text_owned(payload, "reason"),
    }
}

fn marks_task(payload_type: &str) -> (r: bool)
    ensures
        r == is_task_type(payload_type@),
{
    same_text(payload_type, "task_started") || same_text(payload_type, "task_complete")
        || same_text(payload_type, "item_completed") || same_text(payload_type, "turn_aborted")
        || same_text(payload_type, "thread_rolled_back") || same_text(
        payload_type,
        "context_compacted",
    ) || same_text(payload_type, "compacted")
}

fn tell(payload_type: &str, payload: &JsonObject) -> (r: Option<Told>)
    ensures
        match r {
            Some(told) => telling(payload_type@, payload@) == Some(told@),
            None => telling(payload_type@, payload@) is None,
        },
{
    if same_text(payload_type, "session_meta") {
        Some(tell_session_meta(payload))
    } else if same_text(payload_type, "turn_context") {
        Some(tell_turn_context(payload))
    } else if same_text(payload_type, "message") {
        Some(tell_message(payload))
    } else if same_text(payload_type, "user_message") {
        Some(tell_user_message(payload))
    } else if same_text(payload_type, "agent_message") {
        Some(tell_agent_message(payload))
    } else if same_text(payload_type, "reasoning") {
        Some(tell_reasoning(payload))
    } else if same_text(payload_type, "function_call") {
        Some(tell_function_call(payload))
    } else if same_text(payload_type, "function_call_output") {
        Some(tell_function_call_output(payload))
    } else if same_text(payload_type, "exec_command_end") {
        Some(tell_exec_command(payload))
    } else if same_text(payload_type, "patch_apply_end") {
        Some(tell_patch(payload))
    } else if same_text(payload_type, "web_search_call") || same_text(payload_type, "web_search_end") {
        Some(tell_web_search(payload))
    } else if same_text(payload_type, "custom_tool_call") {
        Some(tell_custom_tool_call(payload))
    } else if same_text(payload_type, "custom_tool_call_output") {
        Some(tell_custom_tool_output(payload))
    } else if same_text(payload_type, "view_image_tool_call") {
        Some(tell_image(payload))
    } else if same_text(payload_type, "token_count") {
        Some(tell_token_count(payload))
    } else if marks_task(payload_type) {
        Some(tell_task(payload_type, payload))
    } else if same_text(payload_type, "error") {
        Some(tell_error(payload))
    } else {
        None
    }
}

// ---------------------------------------------------------------------------------------------
// Events
// ---------------------------------------------------------------------------------------------
/// The event that a line of a session file stands for. `index` is the number of the line, counted
/// from zero.
pub fn to_timeline_event(index: usize, row: &Json) -> (r: CodexTimelineEvent)
    ensures
        r.deep_view() == event_of(index as nat, row@),
{
    let timestamp = match row.get("timestamp") {
        Some(value) => match value.as_str() {
            Some(text) => normalize_timestamp_string(text),
            None => String::new(),
        },
        None => String::new(),
    };
    let raw = write_indented(row);
    let line_type = match row.get("type") {
        Some(value) => match value.as_str() {
            Some(text) => text.to_owned(),
            None => String::new(),
        },
        None => String::new(),
    };
    let payload = match row.get("payload") {
        Some(value) => value.as_object(),
        None => None,
    };
    let payload_type = match payload {
        Some(payload) => get_text_owned(payload, "type"),
        None => String::new(),
    };
    let mut id = "line-".to_owned();
    id.append(unsigned_text(index as u64).as_str());

    if let Some(payload) = payload {
        if let Some(told) = tell(payload_type.as_str(), payload) {
            return CodexTimelineEvent {
                id,
                timestamp,
                kind: told.kind,
                role: told.role,
                title: told.title,
                summary: summarize_text(told.brief.as_str(), 180),
                body: told.body,
                raw,
                call_id: told.call_id,
                status: told.status,
            };
        }
    }
    CodexTimelineEvent {
        id,
        timestamp,
        kind: "unknown".to_owned(),
        role: line_type.clone(),
        title: if payload_type.as_str().is_empty() {
            line_type
        } else {
            payload_type
        },
        summary: summarize_text(raw.as_str(), 180),
        body: raw.clone(),
        raw,
        call_id: String::new(),
        status: String::new(),
    }
}

/// A line of a file as it was read: its text, or why it could not be read.
pub open spec fn line_model(line: Result<String, String>) -> Result<Seq<char>, Seq<char>> {
    match line {
        Ok(text) => Ok(text@),
        Err(e) => Err(e@),
    }
}

/// What the lines of a file were read as.
pub open spec fn lines_model(lines: Seq<Result<String, String>>) -> Seq<Result<Seq<char>, Seq<char>>> {
    lines.map_values(|line: Result<String, String>| line_model(line))
}

/// What a line adds to the timeline: an event, a warning, or nothing where it is blank.
pub enum LineNews {
    Event(EventModel),
    Warning(Seq<char>),
    Nothing,
}

/// What a line adds to the timeline.
pub open spec fn line_news(index: nat, line: Result<Seq<char>, Seq<char>>) -> LineNews {
    match line {
        Err(e) => LineNews::Warning("Line "@ + digits(index + 1) + " could not be read: "@ + e),
        Ok(text) => if trimmed(text).len() == 0 {
            LineNews::Nothing
        } else {
            match json_read(trimmed(text)) {
                Ok(row) => LineNews::Event(event_of(index, row)),
                Err(e) => LineNews::Warning("Line "@ + digits(index + 1) + " is invalid JSON: "@ + e),
            }
        },
    }
}

/// The events of a file, in the order of its lines.
pub open spec fn timeline_events(lines: Seq<Result<Seq<char>, Seq<char>>>) -> Seq<EventModel>
    decreases lines.len(),
{
    if lines.len() == 0 {
        Seq::empty()
    } else {
        let before = timeline_events(lines.drop_last());
        match line_news((lines.len() - 1) as nat, lines.last()) {
            LineNews::Event(event) => before.push(event),
            _ => before,
        }
    }
}

/// The warnings about a file, in the order of its lines.
pub open spec fn timeline_warnings(lines: Seq<Result<Seq<char>, Seq<char>>>) -> Seq<Seq<char>>
    decreases lines.len(),
{
    if lines.len() == 0 {
        Seq::empty()
    } else {
        let before = timeline_warnings(lines.drop_last());
        match line_news((lines.len() - 1) as nat, lines.last()) {
            LineNews::Warning(warning) => before.push(warning),
            _ => before,
        }
    }
}

enum ReadLine {
    Event(CodexTimelineEvent),
    Warning(String),
    Nothing,
}

fn read_line(index: usize, line: &Result<String, String>) -> (r: ReadLine)
    requires
        index < usize::MAX,
    ensures
        match r {
            ReadLine::Event(event) => line_news(index as nat, line_model(*line)) == LineNews::Event(
                event.deep_view(),
            ),
            ReadLine::Warning(w) => line_news(index as nat, line_model(*line))
                == LineNews::Warning(w@),
            ReadLine::Nothing => line_news(index as nat, line_model(*line)) is Nothing,
        },
{
    let text = match line {
        Ok(text) => text,
        Err(e) => {
            let mut warning = "Line ".to_owned();
            warning.append(unsigned_text((index + 1) as u64).as_str());
            warning.append(" could not be read: ");
            warning.append(e.as_str());
            return ReadLine::Warning(warning);
        },
    };
    let short = trim(text.as_str());
    if short.is_empty() {
        return ReadLine::Nothing;
    }
    match parse_json(short) {
        Ok(row) => ReadLine::Event(to_timeline_event(index, &row)),
        Err(e) => {
            let mut warning = "Line ".to_owned();
            warning.append(unsigned_text((index + 1) as u64).as_str());
            warning.append(" is invalid JSON: ");
            warning.append(e.as_str());
            ReadLine::Warning(warning)
        },
    }
}

/// The events of a session file and the warnings about it. Each line is given as it was read: its
/// text, or why it could not be read.
pub fn parse_timeline_from_file(lines: &Vec<Result<String, String>>) -> (r: (
    Vec<CodexTimelineEvent>,
    Vec<String>,
))
    ensures
        r.0.deep_view() == timeline_events(lines_model(lines@)),
        r.1.deep_view() == timeline_warnings(lines_model(lines@)),
{
    let ghost all = lines_model(lines@);
    let mut events: Vec<CodexTimelineEvent> = Vec::new();
    let mut warnings: Vec<String> = Vec::new();
    let mut i: usize = 0;
    proof {
        assert(events.deep_view() == timeline_events(all.take(0)));
        assert(warnings.deep_view() == timeline_warnings(all.take(0)));
    }
    while i < lines.len()
        invariant
            all == lines_model(lines@),
            i <= lines@.len(),
            events.deep_view() == timeline_events(all.take(i as int)),
            warnings.deep_view() == timeline_warnings(all.take(i as int)),
        decreases lines@.len() - i,
    {
        let ghost es = events.deep_view();
        let ghost ws = warnings.deep_view();
        proof {
            assert(all.take(i + 1).drop_last() == all.take(i as int));
            assert(all.take(i + 1).last() == line_model(lines@[i as int]));
        }
        match read_line(i, &lines[i]) {
            ReadLine::Event(event) => {
                let ghost m = event.deep_view();
                events.push(event);
                proof {
                    assert(events.deep_view() == es.push(m));
                }
            },
            ReadLine::Warning(warning) => {
                let ghost m = warning@;
                warnings.push(warning);
                proof {
                    assert(warnings.deep_view() == ws.push(m));
                }
            },
            ReadLine::Nothing => {},
        }
        i += 1;
    }
    proof {
        assert(all.take(i as int) == all);
    }
    (events, warnings)
}

// ---------------------------------------------------------------------------------------------
// Laws
// ---------------------------------------------------------------------------------------------
/// The numbers of the lines that stand for events.
pub open spec fn event_lines(lines: Seq<Result<Seq<char>, Seq<char>>>) -> Seq<nat>
    decreases lines.len(),
{
    if lines.len() == 0 {
        Seq::empty()
    } else {
        let before = event_lines(lines.drop_last());
        if line_news((lines.len() - 1) as nat, lines.last()) is Event {
            before.push((lines.len() - 1) as nat)
        } else {
            before
        }
    }
}

/// How many lines are not blank; a line that could not be read counts.
pub open spec fn speaking_lines(lines: Seq<Result<Seq<char>, Seq<char>>>) -> nat
    decreases lines.len(),
{
    if lines.len() == 0 {
        0
    } else {
        let here: nat = match lines.last() {
            Ok(text) if is_blank(text) => 0,
            _ => 1,
        };
        speaking_lines(lines.drop_last()) + here
    }
}

/// Every line that is not blank gives either one event or one warning, and nothing else does.
pub proof fn every_line_is_accounted_for(lines: Seq<Result<Seq<char>, Seq<char>>>)
    ensures
        timeline_events(lines).len() + timeline_warnings(lines).len() == speaking_lines(lines),
    decreases lines.len(),
{
    if lines.len() > 0 {
        every_line_is_accounted_for(lines.drop_last());
    }
}

/// The events of a timeline stand in the order of the lines that they come from, and no two of them
/// have the same identifier.
pub proof fn events_follow_the_lines(lines: Seq<Result<Seq<char>, Seq<char>>>)
    ensures
        timeline_events(lines).len() == event_lines(lines).len(),
        forall|k: int|
            0 <= k < event_lines(lines).len() ==> (#[trigger] event_lines(lines)[k]) < lines.len(),
        forall|k: int|
            0 <= k < timeline_events(lines).len() ==> LineNews::Event(
                #[trigger] timeline_events(lines)[k],
            ) == line_news(event_lines(lines)[k], lines[event_lines(lines)[k] as int]),
        forall|k: int, l: int|
            0 <= k < l < event_lines(lines).len() ==> (#[trigger] event_lines(lines)[k]) < (
            #[trigger] event_lines(lines)[l]),
        forall|k: int, l: int|
            0 <= k < l < timeline_events(lines).len() ==> (#[trigger] timeline_events(lines)[k]).id
                != (#[trigger] timeline_events(lines)[l]).id,
    decreases lines.len(),
{
    if lines.len() > 0 {
        let before = lines.drop_last();
        events_follow_the_lines(before);
        assert forall|k: int| 0 <= k < timeline_events(lines).len() implies LineNews::Event(
            #[trigger] timeline_events(lines)[k],
        ) == line_news(event_lines(lines)[k], lines[event_lines(lines)[k] as int]) by {
            if k < event_lines(before).len() {
                assert(event_lines(lines)[k] == event_lines(before)[k]);
                assert(timeline_events(lines)[k] == timeline_events(before)[k]);
                assert(event_lines(before)[k] < before.len());
            }
        }
        assert forall|k: int, l: int| 0 <= k < l < timeline_events(lines).len() implies (
        #[trigger] timeline_events(lines)[k]).id != (#[trigger] timeline_events(lines)[l]).id by {
            let a = event_lines(lines)[k];
            let b = event_lines(lines)[l];
            assert(timeline_events(lines)[k].id == "line-"@ + digits(a));
            assert(timeline_events(lines)[l].id == "line-"@ + digits(b));
            decimal_notation_reads_back(a);
            decimal_notation_reads_back(b);
            let n = "line-"@.len() as int;
            assert(("line-"@ + digits(a)).skip(n) == digits(a));
            assert(("line-"@ + digits(b)).skip(n) == digits(b));
        }
    }
}

/// Whatever a line says, its event keeps the whole line, and its summary is on one line and at most
/// 183 characters long.
pub proof fn events_keep_their_line(index: nat, row: JsonModel)
    ensures
        event_of(index, row).raw == indented(row),
        event_of(index, row).summary.len() <= 183,
        is_folded(event_of(index, row).summary),
{
    summary_is_short_and_stable(indented(row), 180);
    if let Some(p) = payload_of(row) {
        if let Some(t) = telling(payload_type_of(row), p) {
            summary_is_short_and_stable(t.brief, 180);
        }
    }
}

/// Whether a line has that payload.
pub open spec fn has_payload(row: JsonModel, p: Map<Seq<char>, JsonModel>) -> bool {
    row matches JsonModel::Object(fields) && fields.contains_key("payload"@) && fields["payload"@]
        == JsonModel::Object(p)
}

proof fn lemma_telling(p: Map<Seq<char>, JsonModel>)
    ensures
        telling("session_meta"@, p) == Some(session_meta_telling(p)),
        telling("turn_context"@, p) == Some(turn_context_telling(p)),
        telling("message"@, p) == Some(message_telling(p)),
        telling("user_message"@, p) == Some(user_message_telling(p)),
        telling("agent_message"@, p) == Some(agent_message_telling(p)),
        telling("reasoning"@, p) == Some(reasoning_telling(p)),
        telling("function_call"@, p) == Some(function_call_telling(p)),
        telling("function_call_output"@, p) == Some(function_call_output_telling(p)),
        telling("exec_command_end"@, p) == Some(exec_command_telling(p)),
        telling("patch_apply_end"@, p) == Some(patch_telling(p)),
        telling("web_search_call"@, p) == Some(web_search_telling(p)),
        telling("web_search_end"@, p) == Some(web_search_telling(p)),
        telling("custom_tool_call"@, p) == Some(custom_tool_call_telling(p)),
        telling("custom_tool_call_output"@, p) == Some(custom_tool_output_telling(p)),
        telling("view_image_tool_call"@, p) == Some(image_telling(p)),
        telling("token_count"@, p) == Some(token_count_telling(p)),
        telling("task_started"@, p) == Some(task_telling("task_started"@, p)),
        telling("task_complete"@, p) == Some(task_telling("task_complete"@, p)),
        telling("item_completed"@, p) == Some(task_telling("item_completed"@, p)),
        telling("turn_aborted"@, p) == Some(task_telling("turn_aborted"@, p)),
        telling("thread_rolled_back"@, p) == Some(task_telling("thread_rolled_back"@, p)),
        telling("context_compacted"@, p) == Some(task_telling("context_compacted"@, p)),
        telling("compacted"@, p) == Some(task_telling("compacted"@, p)),
        telling("error"@, p) == Some(error_telling(p)),
{
    reveal_strlit("session_meta");
    reveal_strlit("turn_context");
    reveal_strlit("message");
    reveal_strlit("user_message");
    reveal_strlit("agent_message");
    reveal_strlit("reasoning");
    reveal_strlit("function_call");
    reveal_strlit("function_call_output");
    reveal_strlit("exec_command_end");
    reveal_strlit("patch_apply_end");
    reveal_strlit("web_search_call");
    reveal_strlit("web_search_end");
    reveal_strlit("custom_tool_call");
    reveal_strlit("custom_tool_call_output");
    reveal_strlit("view_image_tool_call");
    reveal_strlit("token_count");
    reveal_strlit("task_started");
    reveal_strlit("task_complete");
    reveal_strlit("item_completed");
    reveal_strlit("turn_aborted");
    reveal_strlit("thread_rolled_back");
    reveal_strlit("context_compacted");
    reveal_strlit("compacted");
    reveal_strlit("error");
    assert("turn_context"@[0] != "session_meta"@[0]);
    assert("user_message"@[0] != "session_meta"@[0]);
    assert("user_message"@[0] != "turn_context"@[0]);
    assert("function_call"@[0] != "agent_message"@[0]);
    assert("web_search_call"@[0] != "patch_apply_end"@[0]);
    assert("custom_tool_call"@[0] != "exec_command_end"@[0]);
    assert("view_image_tool_call"@[0] != "function_call_output"@[0]);
    assert("task_started"@[0] != "session_meta"@[0]);
    assert("task_started"@[1] != "turn_context"@[1]);
    assert("task_started"@[0] != "user_message"@[0]);
    assert("task_complete"@[0] != "agent_message"@[0]);
    assert("task_complete"@[0] != "function_call"@[0]);
    assert("item_completed"@[0] != "web_search_end"@[0]);
    assert("turn_aborted"@[0] != "session_meta"@[0]);
    assert("turn_aborted"@[5] != "turn_context"@[5]);
    assert("turn_aborted"@[0] != "user_message"@[0]);
    assert("turn_aborted"@[1] != "task_started"@[1]);
    assert("compacted"@[0] != "reasoning"@[0]);
    assert("session_meta"@.len() == 12);
    assert("turn_context"@.len() == 12);
    assert("message"@.len() == 7);
    assert("user_message"@.len() == 12);
    assert("agent_message"@.len() == 13);
    assert("reasoning"@.len() == 9);
    assert("function_call"@.len() == 13);
    assert("function_call_output"@.len() == 20);
    assert("exec_command_end"@.len() == 16);
    assert("patch_apply_end"@.len() == 15);
    assert("web_search_call"@.len() == 15);
    assert("web_search_end"@.len() == 14);
    assert("custom_tool_call"@.len() == 16);
    assert("custom_tool_call_output"@.len() == 23);
    assert("view_image_tool_call"@.len() == 20);
    assert("token_count"@.len() == 11);
    assert("task_started"@.len() == 12);
    assert("task_complete"@.len() == 13);
    assert("item_completed"@.len() == 14);
    assert("turn_aborted"@.len() == 12);
    assert("thread_rolled_back"@.len() == 18);
    assert("context_compacted"@.len() == 17);
    assert("compacted"@.len() == 9);
    assert("error"@.len() == 5);
}


/// Whatever a line says, its event bears the number of the line and its time: the time that the line
/// gives, in UTC where it is one that can be read, and none where the line gives none.
pub proof fn events_bear_their_number_and_time(index: nat, row: JsonModel)
    ensures
        event_of(index, row).id == "line-"@ + digits(index),
        row matches JsonModel::Object(fields) ==> {
            let time = event_of(index, row).timestamp;
            if fields.contains_key("timestamp"@) && fields["timestamp"@] is Text {
                let text = fields["timestamp"@]->Text_0;
                match rfc3339_read(trimmed(text)) {
                    Some(t) => !is_blank(text) ==> time == rfc3339_written(t.0, t.1),
                    None => time == text,
                }
            } else {
                time.len() == 0
            }
        },
{
}

/// A message is shown as the text that was spoken in it, whoever spoke: all pieces of its text that are
/// not blank, in their order, with an empty line between them, and in brief the same text. Only where
/// nothing was spoken is the payload shown.
pub proof fn messages_show_their_text(
    index: nat,
    row: JsonModel,
    p: Map<Seq<char>, JsonModel>,
    items: Seq<JsonModel>,
)
    requires
        has_payload(row, p),
        says(p, "type"@, "message"@),
        p.contains_key("content"@),
        p["content"@] == JsonModel::Array(items),
    ensures
        ({
            let e = event_of(index, row);
            let parts = items.filter(|j: JsonModel| is_spoken(j)).map_values(
                |j: JsonModel| spoken(j),
            );
            if parts.len() > 0 {
                e.body == joined(parts, "\n\n"@) && e.summary == summary_of(
                    joined(parts, "\n\n"@),
                    180,
                )
            } else {
                e.body == indented(JsonModel::Object(p)) && e.summary.len() == 0
            }
        }),
{
    lemma_telling(p);
    messages_are_what_was_spoken(p, items);
    lemma_spoken_is_heard(items);
    assert(folded(Seq::<char>::empty()).len() == 0);
}

/// A message without a list of items is shown as its payload.
pub proof fn messages_without_items_show_their_payload(
    index: nat,
    row: JsonModel,
    p: Map<Seq<char>, JsonModel>,
)
    requires
        has_payload(row, p),
        says(p, "type"@, "message"@),
        !(p.contains_key("content"@) && p["content"@] is Array),
    ensures
        event_of(index, row).body == indented(JsonModel::Object(p)),
        event_of(index, row).summary.len() == 0,
{
    lemma_telling(p);
    assert(folded(Seq::<char>::empty()).len() == 0);
}

/// A message is known by its author: the user, the assistant or the developer; any other author is
/// named, and the message is of no known kind.
pub proof fn messages_name_their_author(index: nat, row: JsonModel, p: Map<Seq<char>, JsonModel>)
    requires
        has_payload(row, p),
        says(p, "type"@, "message"@),
    ensures
        ({
            let e = event_of(index, row);
            &&& tells(p, "role"@, e.role)
            &&& says(p, "role"@, "user"@) ==> e.kind == "user_message"@ && e.title == "User"@
            &&& says(p, "role"@, "assistant"@) ==> e.kind == "assistant_message"@ && e.title
                == "Assistant"@
            &&& says(p, "role"@, "developer"@) ==> e.kind == "developer_message"@ && e.title
                == "Developer"@
            &&& !says(p, "role"@, "user"@) && !says(p, "role"@, "assistant"@) && !says(
                p,
                "role"@,
                "developer"@,
            ) ==> e.kind == "unknown"@ && e.title == "Message"@
            &&& e.call_id.len() == 0
            &&& e.status.len() == 0
        }),
{
    lemma_telling(p);
    reveal_strlit("user");
    reveal_strlit("assistant");
    reveal_strlit("developer");
    assert("user"@.len() == 4 && "assistant"@.len() == 9 && "developer"@.len() == 9);
    assert("assistant"@[0] != "developer"@[0]);
}

/// What the user says is shown word for word; where it is blank, the payload is shown.
pub proof fn users_are_quoted(index: nat, row: JsonModel, p: Map<Seq<char>, JsonModel>)
    requires
        has_payload(row, p),
        says(p, "type"@, "user_message"@),
    ensures
        ({
            let e = event_of(index, row);
            &&& e.kind == "user_message"@
            &&& e.role == "user"@
            &&& e.title == "User"@
            &&& p.contains_key("message"@) && p["message"@] is Text && !is_blank(p["message"@]->Text_0)
                ==> p["message"@] == JsonModel::Text(e.body)
            &&& !(p.contains_key("message"@) && p["message"@] is Text && !is_blank(
                p["message"@]->Text_0,
            )) ==> e.body == indented(JsonModel::Object(p))
            &&& e.summary == summary_of(e.body, 180)
            &&& e.call_id.len() == 0
            &&& e.status.len() == 0
        }),
{
    lemma_telling(p);
}

/// What the assistant says is shown word for word, with the phase that it was said in.
pub proof fn assistants_are_quoted(index: nat, row: JsonModel, p: Map<Seq<char>, JsonModel>)
    requires
        has_payload(row, p),
        says(p, "type"@, "agent_message"@),
    ensures
        ({
            let e = event_of(index, row);
            &&& e.kind == "assistant_message"@
            &&& e.role == "assistant"@
            &&& e.title == "Assistant"@
            &&& tells_or(p, "message"@, indented(JsonModel::Object(p)), e.body)
            &&& e.summary == summary_of(e.body, 180)
            &&& tells(p, "phase"@, e.status)
            &&& e.call_id.len() == 0
        }),
{
    lemma_telling(p);
}

/// The head of a session is shown as it is, and in brief by its directory and its provider.
pub proof fn heads_show_where_they_are(index: nat, row: JsonModel, p: Map<Seq<char>, JsonModel>)
    requires
        has_payload(row, p),
        says(p, "type"@, "session_meta"@),
    ensures
        ({
            let e = event_of(index, row);
            &&& e.kind == "session_meta"@
            &&& e.role == "system"@
            &&& e.title == "Session Meta"@
            &&& e.body == indented(JsonModel::Object(p))
            &&& exists|cwd: Seq<char>, provider: Seq<char>|
                tells(p, "cwd"@, cwd) && tells(p, "model_provider"@, provider) && e.summary
                    == #[trigger] summary_of("cwd: "@ + cwd + " | provider: "@ + provider, 180)
            &&& e.call_id.len() == 0
            &&& e.status.len() == 0
        }),
{
    lemma_telling(p);
    let cwd = text_or_empty(p, "cwd"@);
    let provider = text_or_empty(p, "model_provider"@);
    assert(tells(p, "cwd"@, cwd) && tells(p, "model_provider"@, provider));
    assert(event_of(index, row).summary == summary_of(
        "cwd: "@ + cwd + " | provider: "@ + provider,
        180,
    ));
}

/// The context of a turn is shown as it is, and in brief by its summary, where it has one that is not empty.
pub proof fn turns_show_their_summary(index: nat, row: JsonModel, p: Map<Seq<char>, JsonModel>)
    requires
        has_payload(row, p),
        says(p, "type"@, "turn_context"@),
    ensures
        ({
            let e = event_of(index, row);
            &&& e.kind == "turn_context"@
            &&& e.role == "system"@
            &&& e.title == "Turn Context"@
            &&& e.body == indented(JsonModel::Object(p))
            &&& exists|said: Seq<char>| #[trigger]
                shows(p, "summary"@, said) && e.summary == summary_of(
                    if said.len() > 0 {
                        said
                    } else {
                        e.body
                    },
                    180,
                )
            &&& e.call_id.len() == 0
            &&& e.status.len() == 0
        }),
{
    lemma_telling(p);
    let said = field_text(p, "summary"@);
    assert(shows(p, "summary"@, said));
}

/// The call of a tool bears the name of the tool and the mark of the call, and shows the arguments.
pub proof fn calls_show_their_arguments(index: nat, row: JsonModel, p: Map<Seq<char>, JsonModel>)
    requires
        has_payload(row, p),
        says(p, "type"@, "function_call"@),
    ensures
        ({
            let e = event_of(index, row);
            &&& e.kind == "function_call"@
            &&& e.role == "tool"@
            &&& tells_or(p, "name"@, "Tool"@, e.title)
            &&& tells(p, "arguments"@, e.body)
            &&& e.summary == summary_of(e.body, 180)
            &&& tells(p, "call_id"@, e.call_id)
            &&& e.status.len() == 0
        }),
{
    lemma_telling(p);
}

/// What a tool gives back is shown, under the mark of the call.
pub proof fn outputs_show_what_came_back(index: nat, row: JsonModel, p: Map<Seq<char>, JsonModel>)
    requires
        has_payload(row, p),
        says(p, "type"@, "function_call_output"@),
    ensures
        ({
            let e = event_of(index, row);
            &&& e.kind == "function_call_output"@
            &&& e.role == "tool"@
            &&& e.title == "Tool Output"@
            &&& shows(p, "output"@, e.body)
            &&& e.summary == summary_of(e.body, 180)
            &&& tells(p, "call_id"@, e.call_id)
            &&& e.status.len() == 0
        }),
{
    lemma_telling(p);
}

/// A search of the web is shown by what was done, and in brief by what was sought.
pub proof fn searches_show_what_was_sought(index: nat, row: JsonModel, p: Map<Seq<char>, JsonModel>)
    requires
        has_payload(row, p),
        says(p, "type"@, "web_search_call"@) || says(p, "type"@, "web_search_end"@),
    ensures
        ({
            let e = event_of(index, row);
            &&& e.kind == "web_search"@
            &&& e.role == "tool"@
            &&& e.title == "Web Search"@
            &&& exists|query: Seq<char>, action: Seq<char>| #[trigger]
                tells(p, "query"@, query) && #[trigger] shows(p, "action"@, action) && e.summary
                    == summary_of(
                    if query.len() > 0 {
                        query
                    } else {
                        action
                    },
                    180,
                ) && e.body == if action.len() > 0 {
                    action
                } else {
                    indented(JsonModel::Object(p))
                }
            &&& tells(p, "call_id"@, e.call_id)
            &&& tells(p, "status"@, e.status)
        }),
{
    lemma_telling(p);
    let query = text_or_empty(p, "query"@);
    let action = field_text(p, "action"@);
    assert(tells(p, "query"@, query) && shows(p, "action"@, action));
}

/// The call of a custom tool bears the name of the tool, the mark of the call and its state, and shows the input.
pub proof fn custom_calls_show_their_input(index: nat, row: JsonModel, p: Map<Seq<char>, JsonModel>)
    requires
        has_payload(row, p),
        says(p, "type"@, "custom_tool_call"@),
    ensures
        ({
            let e = event_of(index, row);
            &&& e.kind == "custom_tool"@
            &&& e.role == "tool"@
            &&& tells_or(p, "name"@, "Custom Tool"@, e.title)
            &&& shows(p, "input"@, e.body)
            &&& e.summary == summary_of(e.body, 180)
            &&& tells(p, "call_id"@, e.call_id)
            &&& tells(p, "status"@, e.status)
        }),
{
    lemma_telling(p);
}

/// What a custom tool gives back is shown, under the mark of the call.
pub proof fn custom_outputs_show_what_came_back(index: nat, row: JsonModel, p: Map<Seq<char>, JsonModel>)
    requires
        has_payload(row, p),
        says(p, "type"@, "custom_tool_call_output"@),
    ensures
        ({
            let e = event_of(index, row);
            &&& e.kind == "custom_tool"@
            &&& e.role == "tool"@
            &&& e.title == "Custom Tool Output"@
            &&& shows(p, "output"@, e.body)
            &&& e.summary == summary_of(e.body, 180)
            &&& tells(p, "call_id"@, e.call_id)
            &&& e.status.len() == 0
        }),
{
    lemma_telling(p);
}

/// The view of an image is shown by the path of the image.
pub proof fn views_show_their_path(index: nat, row: JsonModel, p: Map<Seq<char>, JsonModel>)
    requires
        has_payload(row, p),
        says(p, "type"@, "view_image_tool_call"@),
    ensures
        ({
            let e = event_of(index, row);
            &&& e.kind == "image"@
            &&& e.role == "tool"@
            &&& e.title == "View Image"@
            &&& tells(p, "path"@, e.body)
            &&& e.summary == summary_of(e.body, 180)
            &&& tells(p, "call_id"@, e.call_id)
            &&& e.status.len() == 0
        }),
{
    lemma_telling(p);
}

/// A count of tokens is shown as it is, and in brief by its information.
pub proof fn counts_show_their_info(index: nat, row: JsonModel, p: Map<Seq<char>, JsonModel>)
    requires
        has_payload(row, p),
        says(p, "type"@, "token_count"@),
    ensures
        ({
            let e = event_of(index, row);
            &&& e.kind == "token_count"@
            &&& e.role == "system"@
            &&& e.title == "Token Count"@
            &&& e.body == indented(JsonModel::Object(p))
            &&& exists|info: Seq<char>| #[trigger]
                shows(p, "info"@, info) && e.summary == summary_of(info, 180)
            &&& e.call_id.len() == 0
            &&& e.status.len() == 0
        }),
{
    lemma_telling(p);
    let info = field_text(p, "info"@);
    assert(shows(p, "info"@, info));
}

/// An error is shown as it is, and in brief by its message.
pub proof fn errors_show_their_message(index: nat, row: JsonModel, p: Map<Seq<char>, JsonModel>)
    requires
        has_payload(row, p),
        says(p, "type"@, "error"@),
    ensures
        ({
            let e = event_of(index, row);
            &&& e.kind == "error"@
            &&& e.role == "system"@
            &&& e.title == "Error"@
            &&& e.body == indented(JsonModel::Object(p))
            &&& exists|message: Seq<char>| #[trigger]
                tells_or(p, "message"@, "Unknown error"@, message) && e.summary == summary_of(
                    message,
                    180,
                )
            &&& e.call_id.len() == 0
            &&& e.status == "error"@
        }),
{
    lemma_telling(p);
    let message = text_or(p, "message"@, "Unknown error"@);
    assert(tells_or(p, "message"@, "Unknown error"@, message));
}

/// A step of a task is named by its type and shown as it is, with its reason.
pub proof fn steps_are_named_by_their_type(index: nat, row: JsonModel, p: Map<Seq<char>, JsonModel>)
    requires
        has_payload(row, p),
        says(p, "type"@, "task_started"@) || says(p, "type"@, "task_complete"@) || says(p, "type"@, "item_completed"@) || says(p, "type"@, "turn_aborted"@) || says(p, "type"@, "thread_rolled_back"@) || says(p, "type"@, "context_compacted"@) || says(p, "type"@, "compacted"@),
    ensures
        ({
            let e = event_of(index, row);
            &&& e.kind == "task"@
            &&& e.role == "system"@
            &&& says(p, "type"@, e.title)
            &&& e.body == indented(JsonModel::Object(p))
            &&& e.summary == summary_of(e.body, 180)
            &&& tells(p, "reason"@, e.status)
            &&& e.call_id.len() == 0
        }),
{
    lemma_telling(p);
}

/// A reasoning step is shown by what it says; where it says nothing, the payload is shown.
pub proof fn reasoning_is_shown(
    index: nat,
    row: JsonModel,
    p: Map<Seq<char>, JsonModel>,
    content: Seq<char>,
    items: Seq<JsonModel>,
    summary: Seq<char>,
)
    requires
        has_payload(row, p),
        says(p, "type"@, "reasoning"@),
        tells(p, "content"@, content),
    ensures
        ({
            let e = event_of(index, row);
            &&& e.kind == "reasoning"@
            &&& e.role == "assistant"@
            &&& e.title == "Reasoning"@
            &&& !is_blank(content) ==> e.body == trimmed(content) && e.summary == summary_of(
                content,
                180,
            )
            &&& is_blank(content) && p.contains_key("summary"@) && p["summary"@]
                == JsonModel::Array(items) ==> ({
                let lines = items.filter(|j: JsonModel| !is_blank(stringified(j))).map_values(
                    |j: JsonModel| trimmed(stringified(j)),
                );
                lines.len() > 0 ==> e.body == joined(lines, "\n"@) && e.summary == summary_of(
                    joined(lines, "\n"@),
                    180,
                )
            })
            &&& is_blank(content) && says(p, "summary"@, summary) && !is_blank(summary) ==> e.body
                == summary && e.summary == summary_of(summary, 180)
            &&& is_blank(content) && !p.contains_key("summary"@) ==> e.body == indented(
                JsonModel::Object(p),
            ) && e.summary.len() == 0
            &&& e.call_id.len() == 0
            &&& e.status.len() == 0
        }),
{
    lemma_telling(p);
    reasoning_says_its_content(p, content, items, summary);
    trimming_keeps_what_is_inside(content);
    trimming_keeps_what_is_inside(summary);
    lemma_folded_trimmed(content);
    assert(folded(Seq::<char>::empty()).len() == 0);
    if is_blank(content) && p.contains_key("summary"@) && p["summary"@] == JsonModel::Array(items) {
        let keep = |j: JsonModel| !is_blank(stringified(j));
        let text = |j: JsonModel| trimmed(stringified(j));
        let kept = items.filter(keep);
        let lines = kept.map_values(text);
        if lines.len() > 0 {
            items.lemma_filter_pred(keep, kept.len() - 1);
            assert(lines.last().len() > 0);
            assert(joined(lines, "\n"@).len() > 0);
        }
    }
}

proof fn lemma_folded_trimmed(s: Seq<char>)
    ensures
        folded(trimmed(s)) == folded(s),
{
    lemma_folded_start(s);
    lemma_folded_end(trim_start(s));
}

proof fn lemma_folded_end(s: Seq<char>)
    ensures
        folded(trim_end(s)) == folded(s),
    decreases s.len(),
{
    if s.len() > 0 && is_space(s.last()) {
        lemma_folded_end(s.drop_last());
    }
}

proof fn lemma_folded_start(s: Seq<char>)
    ensures
        folded(trim_start(s)) == folded(s),
    decreases s.len(),
{
    if s.len() > 0 && is_space(s[0]) {
        let rest = s.drop_first();
        lemma_folded_start(rest);
        let none = Seq::<char>::empty();
        folding_keeps_the_words(none, s[0], rest);
        assert(none + seq![s[0]] + rest =~= s);
        assert(folded(none).len() == 0);
    }
}

/// The end of a command shows its output: what was put together of it, or else how it was laid out, or
/// else what the command wrote to its two streams, whichever is the first that is not blank. It bears
/// the title of the command, the mark of the call, and its state or else its exit code.
pub proof fn commands_show_their_output(
    index: nat,
    row: JsonModel,
    p: Map<Seq<char>, JsonModel>,
    whole_output: Seq<char>,
    laid_out: Seq<char>,
    out: Seq<char>,
    err: Seq<char>,
)
    requires
        has_payload(row, p),
        says(p, "type"@, "exec_command_end"@),
        tells(p, "aggregated_output"@, whole_output),
        tells(p, "formatted_output"@, laid_out),
        tells(p, "stdout"@, out),
        tells(p, "stderr"@, err),
    ensures
        ({
            let e = event_of(index, row);
            &&& e.kind == "exec_command"@
            &&& e.role == "tool"@
            &&& e.title == command_title(p)
            &&& e.body == if !is_blank(whole_output) {
                trimmed(whole_output)
            } else if !is_blank(laid_out) {
                trimmed(laid_out)
            } else if !is_blank(out) && !is_blank(err) {
                trimmed(out) + "\n\n"@ + trimmed(err)
            } else if !is_blank(out) {
                trimmed(out)
            } else {
                trimmed(err)
            }
            &&& e.summary == summary_of(e.body, 180)
            &&& tells(p, "call_id"@, e.call_id)
            &&& p.contains_key("status"@) && p["status"@] is Text ==> says(p, "status"@, e.status)
            &&& !(p.contains_key("status"@) && p["status"@] is Text) ==> shows(
                p,
                "exit_code"@,
                e.status,
            )
        }),
{
    lemma_telling(p);
    commands_write_to_two_streams(p, out, err);
    let written = streams(p);
    trimming_is_stable(out);
    trimming_is_stable(err);
    assert(written.len() > 0 ==> trimmed(written) == written) by {
        if written.len() > 0 {
            if !is_blank(out) && !is_blank(err) {
                assert(written[0] == trimmed(out)[0]);
                assert(written.last() == trimmed(err).last());
            }
            lemma_trimmed_fixed(written);
        }
    }
    let values = seq![
        text_field(p, "aggregated_output"@),
        text_field(p, "formatted_output"@),
        filled(streams(p)),
    ];
    reveal_with_fuel(first_filled, 4);
    assert(values.drop_first() =~= seq![text_field(p, "formatted_output"@), filled(streams(p))]);
    assert(values.drop_first().drop_first() =~= seq![filled(streams(p))]);
    assert(trimmed(Seq::<char>::empty()).len() == 0);
    assert(event_of(index, row).body == command_output(p));
    if is_blank(out) && is_blank(err) {
        assert(trimmed(err) =~= Seq::<char>::empty());
    }
}

/// The end of a patch shows what it wrote to its two streams and what it changed, whatever of that is
/// not blank, in this order and with empty lines between. It bears the mark of the call, and its state
/// or else whether it was a success.
pub proof fn patches_show_their_changes(
    index: nat,
    row: JsonModel,
    p: Map<Seq<char>, JsonModel>,
    out: Seq<char>,
    err: Seq<char>,
    changes: Seq<char>,
)
    requires
        has_payload(row, p),
        says(p, "type"@, "patch_apply_end"@),
        tells(p, "stdout"@, out),
        tells(p, "stderr"@, err),
        shows(p, "changes"@, changes),
    ensures
        ({
            let e = event_of(index, row);
            &&& e.kind == "patch"@
            &&& e.role == "tool"@
            &&& e.title == "Patch Apply"@
            &&& e.body == joined(
                seq![trimmed(out), trimmed(err), trimmed(changes)].filter(
                    |s: Seq<char>| s.len() > 0,
                ),
                "\n\n"@,
            )
            &&& e.summary == summary_of(e.body, 180)
            &&& tells(p, "call_id"@, e.call_id)
            &&& p.contains_key("status"@) && p["status"@] is Text ==> says(p, "status"@, e.status)
            &&& !(p.contains_key("status"@) && p["status"@] is Text) ==> shows(
                p,
                "success"@,
                e.status,
            )
        }),
{
    lemma_telling(p);
    assert(field_text(p, "changes"@) =~= changes);
    empty_parts_are_left_out(seq![trimmed(out), trimmed(err), trimmed(changes)], "\n\n"@);
}

/// A line without a payload that is an object says nothing known: the line itself is shown, under its own
/// type.
pub proof fn lines_without_payload_are_shown_as_they_are(
    index: nat,
    fields: Map<Seq<char>, JsonModel>,
)
    requires
        !(fields.contains_key("payload"@) && fields["payload"@] is Object),
    ensures
        ({
            let row = JsonModel::Object(fields);
            let e = event_of(index, row);
            &&& e.kind == "unknown"@
            &&& tells(fields, "type"@, e.role)
            &&& e.title == e.role
            &&& e.body == indented(row)
            &&& e.summary == summary_of(e.body, 180)
            &&& e.call_id.len() == 0
            &&& e.status.len() == 0
        }),
{
}

/// Whether a payload of that type is known.
pub open spec fn is_known_type(kind: Seq<char>) -> bool {
    ||| kind == "session_meta"@
    ||| kind == "turn_context"@
    ||| kind == "message"@
    ||| kind == "user_message"@
    ||| kind == "agent_message"@
    ||| kind == "reasoning"@
    ||| kind == "function_call"@
    ||| kind == "function_call_output"@
    ||| kind == "exec_command_end"@
    ||| kind == "patch_apply_end"@
    ||| kind == "web_search_call"@
    ||| kind == "web_search_end"@
    ||| kind == "custom_tool_call"@
    ||| kind == "custom_tool_call_output"@
    ||| kind == "view_image_tool_call"@
    ||| kind == "token_count"@
    ||| kind == "task_started"@
    ||| kind == "task_complete"@
    ||| kind == "item_completed"@
    ||| kind == "turn_aborted"@
    ||| kind == "thread_rolled_back"@
    ||| kind == "context_compacted"@
    ||| kind == "compacted"@
    ||| kind == "error"@
}

/// A payload whose type is not known, or that has none, is shown as the whole line, under the type of the
/// payload or else that of the line.
pub proof fn unknown_payloads_are_shown_as_they_are(
    index: nat,
    fields: Map<Seq<char>, JsonModel>,
    p: Map<Seq<char>, JsonModel>,
    kind: Seq<char>,
)
    requires
        fields.contains_key("payload"@),
        fields["payload"@] == JsonModel::Object(p),
        tells(p, "type"@, kind),
        !is_known_type(kind),
    ensures
        ({
            let row = JsonModel::Object(fields);
            let e = event_of(index, row);
            &&& e.kind == "unknown"@
            &&& tells(fields, "type"@, e.role)
            &&& e.title == if kind.len() > 0 {
                kind
            } else {
                e.role
            }
            &&& e.body == indented(row)
            &&& e.summary == summary_of(e.body, 180)
        }),
{
}

/// What comes back of a call bears the mark of the call, so that the two belong together.
pub proof fn calls_and_outputs_belong_together(
    a: nat,
    b: nat,
    call: JsonModel,
    output: JsonModel,
    p: Map<Seq<char>, JsonModel>,
    q: Map<Seq<char>, JsonModel>,
    mark: Seq<char>,
)
    requires
        has_payload(call, p),
        has_payload(output, q),
        says(p, "type"@, "function_call"@) && says(q, "type"@, "function_call_output"@) || says(
            p,
            "type"@,
            "custom_tool_call"@,
        ) && says(q, "type"@, "custom_tool_call_output"@),
        says(p, "call_id"@, mark),
        says(q, "call_id"@, mark),
    ensures
        event_of(a, call).call_id == mark,
        event_of(b, output).call_id == mark,
{
    lemma_telling(p);
    lemma_telling(q);
}

/// A line at the end of a file adds to the timeline: an event under its number where it is JSON, a
/// warning with its number, counted from one, where it is not or could not be read, and nothing where
/// it is blank. What comes before it stays.
pub proof fn lines_add_to_the_timeline(
    lines: Seq<Result<Seq<char>, Seq<char>>>,
    text: Seq<char>,
    e: Seq<char>,
)
    ensures
        timeline_events(Seq::<Result<Seq<char>, Seq<char>>>::empty()).len() == 0,
        timeline_warnings(Seq::<Result<Seq<char>, Seq<char>>>::empty()).len() == 0,
        ({
            let all = lines.push(Ok(text));
            &&& is_blank(text) ==> timeline_events(all) == timeline_events(lines)
                && timeline_warnings(all) == timeline_warnings(lines)
            &&& !is_blank(text) ==> (json_read(trimmed(text)) matches Ok(row) ==> timeline_events(
                all,
            ) == timeline_events(lines).push(event_of(lines.len(), row)) && timeline_warnings(all)
                == timeline_warnings(lines))
            &&& !is_blank(text) ==> (json_read(trimmed(text)) matches Err(why) ==> timeline_events(
                all,
            ) == timeline_events(lines) && timeline_warnings(all) == timeline_warnings(lines).push(
                "Line "@ + digits(lines.len() + 1) + " is invalid JSON: "@ + why,
            ))
        }),
        timeline_events(lines.push(Err(e))) == timeline_events(lines),
        timeline_warnings(lines.push(Err(e))) == timeline_warnings(lines).push(
            "Line "@ + digits(lines.len() + 1) + " could not be read: "@ + e,
        ),
{
    let a = lines.push(Ok(text));
    let b = lines.push(Err(e));
    assert(a.drop_last() =~= lines);
    assert(b.drop_last() =~= lines);
}

} // verus!
