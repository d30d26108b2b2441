//! What the payloads of a session file say: messages, reasoning, commands and their output.
use vstd::prelude::*;

use crate::json::{
    as_text, field, says, tells, text_field, text_or_empty, Json, JsonModel, JsonObject,
};
use crate::json_text::{stringified, stringify_json_or_string};
use crate::phrase::{summarize_text, summary_of};
use crate::text::{is_blank, join, joined, same_text, trim, trimmed};

verus! {

/// A text, unless it is empty.
pub open spec fn filled(s: Seq<char>) -> Option<Seq<char>> {
    if s.len() > 0 {
        Some(s)
    } else {
        None
    }
}

/// The texts that `f` gives for the items, in order, without the items for which it gives none.
pub open spec fn collected<A>(items: Seq<A>, f: spec_fn(A) -> Option<Seq<char>>) -> Seq<Seq<char>>
    decreases items.len(),
{
    if items.len() == 0 {
        Seq::empty()
    } else {
        match f(items.last()) {
            Some(s) => collected(items.drop_last(), f).push(s),
            None => collected(items.drop_last(), f),
        }
    }
}

/// The parts that are not empty, with `sep` between them.
pub open spec fn joined_filled(parts: Seq<Seq<char>>, sep: Seq<char>) -> Seq<char> {
    joined(collected(parts, |s: Seq<char>| filled(s)), sep)
}

/// The parts that are not empty, with `sep` between them.
pub fn join_filled(parts: &Vec<String>, sep: &str) -> (r: String)
    ensures
        r@ == joined_filled(parts.deep_view(), sep@),
{
    let ghost all = parts.deep_view();
    let ghost f = |s: Seq<char>| filled(s);
    let mut kept: Vec<String> = Vec::new();
    let mut i: usize = 0;
    proof {
        assert(kept.deep_view() == collected(all.take(0), f));
    }
    while i < parts.len()
        invariant
            all == parts.deep_view(),
            f == (|s: Seq<char>| filled(s)),
            i <= parts@.len(),
            kept.deep_view() == collected(all.take(i as int), f),
        decreases parts@.len() - i,
    {
        let ghost before = kept.deep_view();
        proof {
            assert(all.take(i + 1).drop_last() == all.take(i as int));
            assert(all.take(i + 1).last() == parts@[i as int]@);
        }
        if !parts[i].as_str().is_empty() {
            kept.push(parts[i].clone());
            proof {
                assert(kept.deep_view() == before.push(parts@[i as int]@));
            }
        }
        i += 1;
    }
    proof {
        assert(all.take(i as int) == all);
    }
    join(&kept, sep)
}

/// The field `name` as a text, whatever it holds; the empty text where there is none.
pub open spec fn field_text(payload: Map<Seq<char>, JsonModel>, name: Seq<char>) -> Seq<char> {
    match field(payload, name) {
        Some(j) => stringified(j),
        None => Seq::empty(),
    }
}

/// The field as a text, whatever it holds; the empty text where there is none.
pub fn field_as_text(payload: &JsonObject, name: &str) -> (r: String)
    ensures
        r@ == field_text(payload@, name@),
{
    match payload.get(name) {
        Some(j) => stringify_json_or_string(j),
        None => String::new(),
    }
}

/// The field `name` where it is a text; otherwise `other`.
pub open spec fn text_or(
    payload: Map<Seq<char>, JsonModel>,
    name: Seq<char>,
    other: Seq<char>,
) -> Seq<char> {
    match text_field(payload, name) {
        Some(s) => s,
        None => other,
    }
}

/// The field where it is a text; otherwise the other text.
pub fn get_text_or(payload: &JsonObject, name: &str, other: &str) -> (r: String)
    ensures
        r@ == text_or(payload@, name@, other@),
{
    match payload.get_text(name) {
        Some(s) => s.to_owned(),
        None => other.to_owned(),
    }
}

/// The field where it is a text; otherwise the empty text.
pub fn get_text_owned(payload: &JsonObject, name: &str) -> (r: String)
    ensures
        r@ == text_or_empty(payload@, name@),
{
    payload.get_text_or_empty(name).to_owned()
}

// ---------------------------------------------------------------------------------------------
// Messages
// ---------------------------------------------------------------------------------------------
/// Whether an item of a message is a piece of text.
pub open spec fn is_text_item(item_type: Seq<char>) -> bool {
    item_type == "input_text"@ || item_type == "output_text"@ || item_type == "text"@
}

/// What an item adds to a message, without white space at its ends.
pub open spec fn message_part(item: JsonModel) -> Option<Seq<char>> {
    match item {
        JsonModel::Object(fields) => if is_text_item(text_or_empty(fields, "type"@)) {
            match text_field(fields, "text"@) {
                Some(text) => filled(trimmed(text)),
                None => None,
            }
        } else {
            None
        },
        _ => None,
    }
}

/// The text of a message: what its items add, with an empty line between them.
pub open spec fn message_content(payload: Map<Seq<char>, JsonModel>) -> Seq<char> {
    match field(payload, "content"@) {
        Some(JsonModel::Array(items)) => joined(
            collected(items, |item: JsonModel| message_part(item)),
            "\n\n"@,
        ),
        _ => Seq::empty(),
    }
}

fn message_part_of(item: &Json) -> (r: Option<String>)
    ensures
        r.deep_view() == message_part(item@),
{
    let object = match item.as_object() {
        Some(object) => object,
        None => {
            return None;
        },
    };
    let item_type = object.get_text_or_empty("type");
    if same_text(item_type, "input_text") || same_text(item_type, "output_text") || same_text(
        item_type,
        "text",
    ) {
        if let Some(text) = object.get_text("text") {
            let short = trim(text);
            if !short.is_empty() {
                return Some(short.to_owned());
            }
        }
    }
    None
}

/// The text of a message: what its items add, with an empty line between them.
pub fn extract_message_content(payload: &JsonObject) -> (r: String)
    ensures
        r@ == message_content(payload@),
{
    let items = match payload.get("content") {
        Some(content) => match content.as_array() {
            Some(items) => items,
            None => {
                return String::new();
            },
        },
        None => {
            return String::new();
        },
    };
    let ghost all = items.deep_view();
    let ghost f = |item: JsonModel| message_part(item);
    let mut parts: Vec<String> = Vec::new();
    let mut i: usize = 0;
    proof {
        assert(parts.deep_view() == collected(all.take(0), f));
    }
    while i < items.len()
        invariant
            all == items.deep_view(),
            f == (|item: JsonModel| message_part(item)),
            i <= items@.len(),
            parts.deep_view() == collected(all.take(i as int), f),
        decreases items@.len() - i,
    {
        let ghost before = parts.deep_view();
        proof {
            assert(all.take(i + 1).drop_last() == all.take(i as int));
            assert(all.take(i + 1).last() == items@[i as int]@);
        }
        if let Some(part) = message_part_of(&items[i]) {
            let ghost added = part@;
            parts.push(part);
            proof {
                assert(parts.deep_view() == before.push(added));
            }
        }
        i += 1;
    }
    proof {
        assert(all.take(i as int) == all);
    }
    join(&parts, "\n\n")
}

// ---------------------------------------------------------------------------------------------
// Reasoning
// ---------------------------------------------------------------------------------------------
/// What the items of a reasoning summary say, a line for each.
pub open spec fn summary_lines(items: Seq<JsonModel>) -> Seq<char> {
    joined(collected(items, |item: JsonModel| filled(trimmed(stringified(item)))), "\n"@)
}

/// What a reasoning step says: its content, or else its summary, where they say anything.
pub open spec fn reasoning_summary(payload: Map<Seq<char>, JsonModel>) -> Seq<char> {
    let content = trimmed(text_or_empty(payload, "content"@));
    if content.len() > 0 {
        content
    } else {
        match field(payload, "summary"@) {
            Some(summary) => {
                let lines = match summary {
                    JsonModel::Array(items) => summary_lines(items),
                    _ => Seq::empty(),
                };
                if lines.len() > 0 {
                    lines
                } else if !is_blank(stringified(summary)) {
                    stringified(summary)
                } else {
                    Seq::empty()
                }
            },
            None => Seq::empty(),
        }
    }
}

fn summary_lines_of(items: &Vec<Json>) -> (r: String)
    ensures
        r@ == summary_lines(items.deep_view()),
{
    let ghost all = items.deep_view();
    let ghost f = |item: JsonModel| filled(trimmed(stringified(item)));
    let mut parts: Vec<String> = Vec::new();
    let mut i: usize = 0;
    proof {
        assert(parts.deep_view() == collected(all.take(0), f));
    }
    while i < items.len()
        invariant
            all == items.deep_view(),
            f == (|item: JsonModel| filled(trimmed(stringified(item)))),
            i <= items@.len(),
            parts.deep_view() == collected(all.take(i as int), f),
        decreases items@.len() - i,
    {
        let ghost before = parts.deep_view();
        proof {
            assert(all.take(i + 1).drop_last() == all.take(i as int));
            assert(all.take(i + 1).last() == items@[i as int]@);
        }
        let text = stringify_json_or_string(&items[i]);
        let short = trim(text.as_str());
        if !short.is_empty() {
            parts.push(short.to_owned());
            proof {
                assert(parts.deep_view() == before.push(short@));
            }
        }
        i += 1;
    }
    proof {
        assert(all.take(i as int) == all);
    }
    join(&parts, "\n")
}

/// What a reasoning step says: its content, or else its summary, where they say anything.
pub fn extract_reasoning_summary(payload: &JsonObject) -> (r: String)
    ensures
        r@ == reasoning_summary(payload@),
{
    let content = trim(payload.get_text_or_empty("content"));
    if !content.is_empty() {
        return content.to_owned();
    }
    if let Some(summary) = payload.get("summary") {
        if let Some(items) = summary.as_array() {
            let text = summary_lines_of(items);
            if !text.as_str().is_empty() {
                return text;
            }
        }
        let text = stringify_json_or_string(summary);
        if !trim(text.as_str()).is_empty() {
            return text;
        }
    }
    String::new()
}

// ---------------------------------------------------------------------------------------------
// Commands
// ---------------------------------------------------------------------------------------------
/// A word of a command.
pub open spec fn command_word(item: JsonModel) -> Option<Seq<char>> {
    match as_text(Some(item)) {
        Some(s) => filled(trimmed(s)),
        None => None,
    }
}

/// The title of a command: its words, or else what stands there in their place, in at most 120
/// characters.
pub open spec fn command_title(payload: Map<Seq<char>, JsonModel>) -> Seq<char> {
    match field(payload, "command"@) {
        None => "Command"@,
        Some(command) => {
            let words = match command {
                JsonModel::Array(items) => collected(items, |item: JsonModel| command_word(item)),
                _ => Seq::empty(),
            };
            if words.len() > 0 {
                summary_of(joined(words, " "@), 120)
            } else {
                summary_of(stringified(command), 120)
            }
        },
    }
}

fn command_words(items: &Vec<Json>) -> (r: Vec<String>)
    ensures
        r.deep_view() == collected(items.deep_view(), |item: JsonModel| command_word(item)),
{
    let ghost all = items.deep_view();
    let ghost f = |item: JsonModel| command_word(item);
    let mut parts: Vec<String> = Vec::new();
    let mut i: usize = 0;
    proof {
        assert(parts.deep_view() == collected(all.take(0), f));
    }
    while i < items.len()
        invariant
            all == items.deep_view(),
            f == (|item: JsonModel| command_word(item)),
            i <= items@.len(),
            parts.deep_view() == collected(all.take(i as int), f),
        decreases items@.len() - i,
    {
        let ghost before = parts.deep_view();
        proof {
            assert(all.take(i + 1).drop_last() == all.take(i as int));
            assert(all.take(i + 1).last() == items@[i as int]@);
        }
        if let Some(text) = items[i].as_str() {
            let short = trim(text);
            if !short.is_empty() {
                parts.push(short.to_owned());
                proof {
                    assert(parts.deep_view() == before.push(short@));
                }
            }
        }
        i += 1;
    }
    proof {
        assert(all.take(i as int) == all);
    }
    parts
}

/// The title of a command: its words, or else what stands there in their place, in at most 120
/// characters.
pub fn format_command_title(payload: &JsonObject) -> (r: String)
    ensures
        r@ == command_title(payload@),
{
    let command = match payload.get("command") {
        Some(command) => command,
        None => {
            return "Command".to_owned();
        },
    };
    if let Some(items) = command.as_array() {
        let words = command_words(items);
        if words.len() > 0 {
            let line = join(&words, " ");
            return summarize_text(line.as_str(), 120);
        }
    }
    let text = stringify_json_or_string(command);
    summarize_text(text.as_str(), 120)
}

/// The output of a command: what it wrote to its two streams, with an empty line between.
pub open spec fn streams(payload: Map<Seq<char>, JsonModel>) -> Seq<char> {
    joined_filled(
        seq![
            trimmed(text_or_empty(payload, "stdout"@)),
            trimmed(text_or_empty(payload, "stderr"@)),
        ],
        "\n\n"@,
    )
}

/// What a command wrote to its two streams, where it wrote anything.
pub fn join_stdout_stderr(payload: &JsonObject) -> (r: Option<String>)
    ensures
        r.deep_view() == filled(streams(payload@)),
{
    let mut parts: Vec<String> = Vec::new();
    parts.push(trim(payload.get_text_or_empty("stdout")).to_owned());
    parts.push(trim(payload.get_text_or_empty("stderr")).to_owned());
    proof {
        assert(parts.deep_view() =~= seq![
            trimmed(text_or_empty(payload@, "stdout"@)),
            trimmed(text_or_empty(payload@, "stderr"@)),
        ]);
    }
    let joined_text = join_filled(&parts, "\n\n");
    if joined_text.as_str().is_empty() {
        None
    } else {
        Some(joined_text)
    }
}

// ---------------------------------------------------------------------------------------------
// Laws
// ---------------------------------------------------------------------------------------------
/// What is collected are the texts of those items that are kept, in the order of the items.
pub proof fn lemma_collected<A>(
    items: Seq<A>,
    f: spec_fn(A) -> Option<Seq<char>>,
    keep: spec_fn(A) -> bool,
    text: spec_fn(A) -> Seq<char>,
)
    requires
        forall|i: int|
            0 <= i < items.len() ==> f(#[trigger] items[i]) == if keep(items[i]) {
                Some(text(items[i]))
            } else {
                None
            },
    ensures
        collected(items, f) == items.filter(keep).map_values(text),
    decreases items.len(),
{
    reveal(Seq::filter);
    if items.len() > 0 {
        let before = items.drop_last();
        assert forall|i: int| 0 <= i < before.len() implies f(#[trigger] before[i]) == if keep(
            before[i],
        ) {
            Some(text(before[i]))
        } else {
            None
        } by {
            assert(before[i] == items[i]);
        }
        lemma_collected(before, f, keep, text);
        assert(f(items[items.len() - 1]) == if keep(items.last()) {
            Some(text(items.last()))
        } else {
            None
        });
        assert(collected(items, f) =~= items.filter(keep).map_values(text));
    } else {
        assert(collected(items, f) =~= items.filter(keep).map_values(text));
    }
}

/// Whether an item of a message is a piece of text that is not blank.
pub open spec fn is_spoken(item: JsonModel) -> bool {
    item matches JsonModel::Object(fields) && {
        &&& says(fields, "type"@, "input_text"@) || says(fields, "type"@, "output_text"@) || says(
            fields,
            "type"@,
            "text"@,
        )
        &&& fields.contains_key("text"@)
        &&& fields["text"@] matches JsonModel::Text(text) && !is_blank(text)
    }
}

/// The text of an item of a message, without white space at its ends.
pub open spec fn spoken(item: JsonModel) -> Seq<char> {
    trimmed(item->Object_0["text"@]->Text_0)
}

/// The text of a message is made of its pieces of text that are not blank, all of them and nothing else,
/// in their order, with an empty line between them.
pub proof fn messages_are_what_was_spoken(
    payload: Map<Seq<char>, JsonModel>,
    items: Seq<JsonModel>,
)
    requires
        payload.contains_key("content"@),
        payload["content"@] == JsonModel::Array(items),
    ensures
        message_content(payload) == joined(
            items.filter(|j: JsonModel| is_spoken(j)).map_values(|j: JsonModel| spoken(j)),
            "\n\n"@,
        ),
{
    reveal_strlit("input_text");
    reveal_strlit("output_text");
    reveal_strlit("text");
    assert("input_text"@.len() == 10 && "output_text"@.len() == 11 && "text"@.len() == 4);
    assert forall|i: int| 0 <= i < items.len() implies message_part(#[trigger] items[i])
        == if is_spoken(items[i]) {
        Some(spoken(items[i]))
    } else {
        None
    } by {
        if let JsonModel::Object(fields) = items[i] {
            assert(is_text_item(text_or_empty(fields, "type"@)) <==> says(
                fields,
                "type"@,
                "input_text"@,
            ) || says(fields, "type"@, "output_text"@) || says(fields, "type"@, "text"@));
        }
    }
    lemma_collected(
        items,
        |item: JsonModel| message_part(item),
        |j: JsonModel| is_spoken(j),
        |j: JsonModel| spoken(j),
    );
}

/// Where something was spoken, the text of a message is not empty.
pub proof fn lemma_spoken_is_heard(items: Seq<JsonModel>)
    ensures
        ({
            let parts = items.filter(|j: JsonModel| is_spoken(j)).map_values(
                |j: JsonModel| spoken(j),
            );
            parts.len() > 0 <==> joined(parts, "\n\n"@).len() > 0
        }),
{
    let kept = items.filter(|j: JsonModel| is_spoken(j));
    let parts = kept.map_values(|j: JsonModel| spoken(j));
    if parts.len() > 0 {
        items.lemma_filter_pred(|j: JsonModel| is_spoken(j), kept.len() - 1);
        assert(is_spoken(kept[kept.len() - 1]));
        assert(parts.last() == spoken(kept[kept.len() - 1]));
        assert(parts.last().len() > 0);
    }
}

proof fn lemma_two_streams(out: Seq<char>, err: Seq<char>)
    ensures
        joined_filled(seq![out, err], "\n\n"@) == if out.len() > 0 && err.len() > 0 {
            out + "\n\n"@ + err
        } else if out.len() > 0 {
            out
        } else {
            err
        },
{
    let f = |s: Seq<char>| filled(s);
    let all = seq![out, err];
    reveal_with_fuel(collected, 3);
    assert(all.drop_last() =~= seq![out]);
    assert(all.drop_last().drop_last() =~= Seq::<Seq<char>>::empty());
    let kept = collected(all, f);
    reveal_with_fuel(joined, 3);
    if out.len() > 0 && err.len() > 0 {
        assert(kept =~= seq![out, err]);
        assert(kept.drop_last() =~= seq![out]);
    } else if out.len() > 0 {
        assert(kept =~= seq![out]);
    } else if err.len() > 0 {
        assert(kept =~= seq![err]);
    } else {
        assert(kept =~= Seq::<Seq<char>>::empty());
        assert(joined(kept, "\n\n"@) =~= err);
    }
}

/// What a command wrote is what it wrote to its output and then what it wrote to its error output, each
/// without white space at its ends, with an empty line between them where it wrote to both.
pub proof fn commands_write_to_two_streams(
    payload: Map<Seq<char>, JsonModel>,
    out: Seq<char>,
    err: Seq<char>,
)
    requires
        tells(payload, "stdout"@, out),
        tells(payload, "stderr"@, err),
    ensures
        streams(payload) == if !is_blank(out) && !is_blank(err) {
            trimmed(out) + "\n\n"@ + trimmed(err)
        } else if !is_blank(out) {
            trimmed(out)
        } else {
            trimmed(err)
        },
{
    lemma_two_streams(trimmed(out), trimmed(err));
}

/// Parts that are empty are left out, and the others are joined in their order.
pub proof fn empty_parts_are_left_out(parts: Seq<Seq<char>>, sep: Seq<char>)
    ensures
        joined_filled(parts, sep) == joined(parts.filter(|s: Seq<char>| s.len() > 0), sep),
{
    let keep = |s: Seq<char>| s.len() > 0;
    let text = |s: Seq<char>| s;
    lemma_collected(parts, |s: Seq<char>| filled(s), keep, text);
    assert(parts.filter(keep).map_values(text) =~= parts.filter(keep));
}

/// The title of a command is made of its words that are not blank, in their order, in at most 120
/// characters and three dots.
pub proof fn commands_are_titled_by_their_words(
    payload: Map<Seq<char>, JsonModel>,
    items: Seq<JsonModel>,
)
    requires
        payload.contains_key("command"@),
        payload["command"@] == JsonModel::Array(items),
    ensures
        ({
            let words = items.filter(
                |j: JsonModel| j matches JsonModel::Text(s) && !is_blank(s),
            ).map_values(|j: JsonModel| trimmed(j->Text_0));
            words.len() > 0 ==> command_title(payload) == summary_of(joined(words, " "@), 120)
        }),
{
    let keep = |j: JsonModel| j matches JsonModel::Text(s) && !is_blank(s);
    let text = |j: JsonModel| trimmed(j->Text_0);
    lemma_collected(items, |item: JsonModel| command_word(item), keep, text);
}

/// A command that is given as one text is titled by that text; one that is not given at all has a title
/// all the same.
pub proof fn plain_commands_are_titled(payload: Map<Seq<char>, JsonModel>, command: Seq<char>)
    ensures
        says(payload, "command"@, command) ==> command_title(payload) == summary_of(command, 120),
        !payload.contains_key("command"@) ==> command_title(payload) == "Command"@,
{
}

/// A reasoning step says what its content says. Where that is blank it says what the items of its summary
/// say that are not blank, a line for each; and a summary that is a text is said as it is.
pub proof fn reasoning_says_its_content(
    payload: Map<Seq<char>, JsonModel>,
    content: Seq<char>,
    items: Seq<JsonModel>,
    summary: Seq<char>,
)
    requires
        tells(payload, "content"@, content),
    ensures
        !is_blank(content) ==> reasoning_summary(payload) == trimmed(content),
        is_blank(content) && payload.contains_key("summary"@) && payload["summary"@]
            == JsonModel::Array(items) ==> ({
            let lines = items.filter(|j: JsonModel| !is_blank(stringified(j))).map_values(
                |j: JsonModel| trimmed(stringified(j)),
            );
            lines.len() > 0 ==> reasoning_summary(payload) == joined(lines, "\n"@)
        }),
        is_blank(content) && says(payload, "summary"@, summary) && !is_blank(summary)
            ==> reasoning_summary(payload) == summary,
        is_blank(content) && !payload.contains_key("summary"@) ==> reasoning_summary(payload).len()
            == 0,
{
    if is_blank(content) && payload.contains_key("summary"@) && payload["summary"@]
        == JsonModel::Array(items) {
        let keep = |j: JsonModel| !is_blank(stringified(j));
        let text = |j: JsonModel| trimmed(stringified(j));
        let f = |item: JsonModel| filled(trimmed(stringified(item)));
        lemma_collected(items, f, keep, text);
        let kept = items.filter(keep);
        let lines = kept.map_values(text);
        if lines.len() > 0 {
            items.lemma_filter_pred(keep, kept.len() - 1);
            assert(lines.last().len() > 0);
        }
    }
}

} // verus!
