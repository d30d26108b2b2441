//! The session index: a file with one JSON object on each line.
use vstd::prelude::*;

use crate::clock::{parse_rfc3339_to_timestamp, timestamp_of};
use crate::json::{as_text, json_get, says, tells, Json, JsonModel, JsonObject};
use crate::json_text::{
    json_from_str, json_line, json_read, nesting_within, parse_json, reads_again,
    same_but_fractions, write_line, written_well,
};
use crate::search::{ascii_lowercased, eq_ignore_ascii_case, lowercase, to_lowercase};
use crate::table::{lookup, Table};
use crate::text::{
    file_of, files_keep_their_lines, is_blank, is_space, join_lines, lemma_trimmed_fixed, lines,
    lines_hold_no_line_feed, one_line, text_lines, trim, trimmed, trimming_is_stable,
};

verus! {

// ---------------------------------------------------------------------------------------------
// Reading
// ---------------------------------------------------------------------------------------------
/// What the index says of a session.
#[derive(Debug, PartialEq)]
pub struct SessionIndexEntry {
    pub id: String,
    pub title: String,
    pub updated_at: Option<i64>,
    pub raw: Json,
}

/// What is known of a session from the index.
#[verifier::ext_equal]
pub struct IndexModel {
    pub id: Seq<char>,
    pub title: Seq<char>,
    pub updated_at: Option<i64>,
    pub raw: JsonModel,
}

impl DeepView for SessionIndexEntry {
    type V = IndexModel;

    open spec fn deep_view(&self) -> IndexModel {
        IndexModel {
            id: self.id@,
            title: self.title@,
            updated_at: self.updated_at,
            raw: self.raw@,
        }
    }
}

/// A text, where there is one; otherwise the empty text.
pub open spec fn text_or_none(s: Option<Seq<char>>) -> Seq<char> {
    match s {
        Some(s) => s,
        None => Seq::empty(),
    }
}

/// The point in time that a text denotes, where there is one.
pub open spec fn time_in(s: Option<Seq<char>>) -> Option<i64> {
    match s {
        Some(s) => timestamp_of(s),
        None => None,
    }
}

/// What a value of the index says of a session, where it has an identifier.
pub open spec fn entry_in(j: JsonModel) -> Option<IndexModel> {
    match as_text(json_get(j, "id"@)) {
        Some(id) => Some(
            IndexModel {
                id,
                title: trimmed(text_or_none(as_text(json_get(j, "thread_name"@)))),
                updated_at: time_in(as_text(json_get(j, "updated_at"@))),
                raw: j,
            },
        ),
        None => None,
    }
}

/// What a line of the index says of a session.
pub open spec fn entry_on(line: Seq<char>) -> Option<IndexModel> {
    if trimmed(line).len() == 0 {
        None
    } else {
        match json_read(trimmed(line)) {
            Ok(j) => entry_in(j),
            Err(_) => None,
        }
    }
}

/// What the lines of the index say, by the identifiers of the sessions in lower case. A later line
/// replaces an earlier one on the same session.
pub open spec fn index_of(list: Seq<Seq<char>>) -> Map<Seq<char>, IndexModel>
    decreases list.len(),
{
    if list.len() == 0 {
        Map::empty()
    } else {
        let before = index_of(list.drop_last());
        match entry_on(list.last()) {
            Some(entry) => before.insert(lowercase(entry.id), entry),
            None => before,
        }
    }
}

fn read_entry(line: &str) -> (r: Option<SessionIndexEntry>)
    ensures
        r.deep_view() == entry_on(line@),
{
    let short = trim(line);
    if short.is_empty() {
        return None;
    }
    let parsed = match parse_json(short) {
        Ok(parsed) => parsed,
        Err(_) => {
            return None;
        },
    };
    let id = match parsed.get("id") {
        Some(value) => match value.as_str() {
            Some(id) => id.to_owned(),
            None => {
                return None;
            },
        },
        None => {
            return None;
        },
    };
    proof {
        assert(trimmed(Seq::<char>::empty()) =~= Seq::<char>::empty());
    }
    let title = match parsed.get("thread_name") {
        Some(value) => match value.as_str() {
            Some(text) => trim(text).to_owned(),
            None => String::new(),
        },
        None => String::new(),
    };
    let updated_at: Option<i64> = match parsed.get("updated_at") {
        Some(value) => match value.as_str() {
            Some(text) => parse_rfc3339_to_timestamp(text),
            None => None,
        },
        None => None,
    };
    Some(SessionIndexEntry { id, title, updated_at, raw: parsed })
}

/// What the index says, by the identifiers of the sessions in lower case. `content` is the text of
/// the file, where there is one.
pub fn read_session_index_map(content: Option<&str>) -> (r: Table<SessionIndexEntry>)
    ensures
        r.wf(),
        match content {
            Some(text) => r@ == index_of(text_lines(text@)),
            None => r@ == Map::<Seq<char>, IndexModel>::empty(),
        },
{
    let mut entries: Table<SessionIndexEntry> = Table::new();
    let text = match content {
        Some(text) => text,
        None => {
            return entries;
        },
    };
    let list = lines(text);
    let ghost all = list.deep_view();
    let mut i: usize = 0;
    proof {
        assert(all.take(0).len() == 0);
    }
    while i < list.len()
        invariant
            all == list.deep_view(),
            i <= list@.len(),
            entries.wf(),
            entries@ == index_of(all.take(i as int)),
        decreases list@.len() - i,
    {
        proof {
            assert(all.take(i + 1).drop_last() == all.take(i as int));
            assert(all.take(i + 1).last() == list@[i as int]@);
        }
        if let Some(entry) = read_entry(list[i].as_str()) {
            entries.put(to_lowercase(entry.id.as_str()), entry);
        }
        i += 1;
    }
    proof {
        assert(all.take(i as int) == all);
    }
    entries
}

// ---------------------------------------------------------------------------------------------
// Writing
// ---------------------------------------------------------------------------------------------
/// The fields of a value; none where it is no object.
pub open spec fn fields_of(j: JsonModel) -> Map<Seq<char>, JsonModel> {
    match j {
        JsonModel::Object(fields) => fields,
        _ => Map::empty(),
    }
}

/// A value of the index with the identifier, the title and the time of a session put in.
pub open spec fn retitled_entry(
    j: JsonModel,
    session_id: Seq<char>,
    title: Seq<char>,
    updated_at: Seq<char>,
) -> JsonModel {
    JsonModel::Object(
        fields_of(j).insert("id"@, JsonModel::Text(session_id)).insert(
            "thread_name"@,
            JsonModel::Text(title),
        ).insert("updated_at"@, JsonModel::Text(updated_at)),
    )
}

/// Puts the identifier, the title and the time of a session into a value of the index. A value that
/// is no object becomes one.
pub fn update_session_index_entry(entry: &mut Json, session_id: &str, title: &str, updated_at: &str)
    ensures
        final(entry)@ == retitled_entry(old(entry)@, session_id@, title@, updated_at@),
{
    let mut fields = match entry {
        Json::Object(object) => object.clone(),
        _ => JsonObject::new(),
    };
    fields.set("id", json_from_str(session_id));
    fields.set("thread_name", json_from_str(title));
    fields.set("updated_at", json_from_str(updated_at));
    *entry = Json::Object(fields);
}

/// Whether a value of the index is on the session, whatever the case of its ASCII letters.
pub open spec fn is_on_session(j: JsonModel, session_id: Seq<char>) -> bool {
    match as_text(json_get(j, "id"@)) {
        Some(id) => ascii_lowercased(id) == ascii_lowercased(session_id),
        None => false,
    }
}

/// The value on a line of the index that is on the session.
pub open spec fn session_value_on(line: Seq<char>, session_id: Seq<char>) -> Option<JsonModel> {
    if trimmed(line).len() == 0 {
        None
    } else {
        match json_read(trimmed(line)) {
            Ok(j) if is_on_session(j, session_id) => Some(j),
            _ => None,
        }
    }
}

/// The lines of the index with the title of a session put in. Blank lines are left out, and the
/// lines on other sessions lose no more than the white space at their ends.
pub open spec fn retitled_lines(
    list: Seq<Seq<char>>,
    session_id: Seq<char>,
    title: Seq<char>,
    updated_at: Seq<char>,
) -> Result<Seq<Seq<char>>, Seq<char>>
    decreases list.len(),
{
    if list.len() == 0 {
        Ok(Seq::empty())
    } else {
        match retitled_lines(list.drop_last(), session_id, title, updated_at) {
            Err(e) => Err(e),
            Ok(before) => match session_value_on(list.last(), session_id) {
                Some(j) => match json_line(retitled_entry(j, session_id, title, updated_at)) {
                    Ok(line) => Ok(before.push(line)),
                    Err(e) => Err("Failed to serialize session index entry: "@ + e),
                },
                None => if trimmed(list.last()).len() == 0 {
                    Ok(before)
                } else {
                    Ok(before.push(trimmed(list.last())))
                },
            },
        }
    }
}

/// Whether some line of the index is on the session.
pub open spec fn mentions(list: Seq<Seq<char>>, session_id: Seq<char>) -> bool {
    exists|i: int|
        0 <= i < list.len() && (#[trigger] session_value_on(list[i], session_id)) is Some
}

/// The lines of the index after a title was saved: where no line was on the session, a line on it
/// is added, made from what was known of the session.
pub open spec fn upserted_lines(
    list: Seq<Seq<char>>,
    session_id: Seq<char>,
    title: Seq<char>,
    updated_at: Seq<char>,
    existing: Option<JsonModel>,
) -> Result<Seq<Seq<char>>, Seq<char>> {
    match retitled_lines(list, session_id, title, updated_at) {
        Err(e) => Err(e),
        Ok(kept) => if mentions(list, session_id) {
            Ok(kept)
        } else {
            match json_line(
                retitled_entry(known_or_new(existing), session_id, title, updated_at),
            ) {
                Ok(line) => Ok(kept.push(line)),
                Err(e) => Err("Failed to serialize new session index entry: "@ + e),
            }
        },
    }
}

/// The text of the index after the title of a session was saved. `content` is the text of the file
/// before, where there is one, and `existing_entry` what was known of the session from the index.
pub fn upsert_session_index(
    content: Option<&str>,
    session_id: &str,
    title: &str,
    updated_at: &str,
    existing_entry: Option<&Json>,
) -> (r: Result<String, String>)
    ensures
        match (
            upserted_lines(
                lines_in(content.deep_view()),
                session_id@,
                title@,
                updated_at@,
                existing_entry.deep_view(),
            ),
            r,
        ) {
            (Ok(list), Ok(text)) => text@ == file_of(list),
            (Err(e), Err(message)) => message@ == e,
            _ => false,
        },
        r is Ok,
        entries_written_well(
            lines_in(content.deep_view()),
            session_id@,
            title@,
            updated_at@,
            existing_entry.deep_view(),
        ),
{
    let list = match content {
        Some(text) => lines(text),
        None => Vec::new(),
    };
    let ghost all = list.deep_view();
    let mut next: Vec<String> = Vec::new();
    let mut updated = false;
    let mut i: usize = 0;
    proof {
        assert(all =~= lines_in(content.deep_view()));
        assert(all.take(0).len() == 0);
        assert(next.deep_view() =~= Seq::<Seq<char>>::empty());
    }
    while i < list.len()
        invariant
            all == list.deep_view(),
            i <= list@.len(),
            retitled_lines(all.take(i as int), session_id@, title@, updated_at@) == Ok::<
                Seq<Seq<char>>,
                Seq<char>,
            >(next.deep_view()),
            updated == mentions(all.take(i as int), session_id@),
            all == lines_in(content.deep_view()),
            forall|k: int| #![trigger session_value_on(all[k], session_id@)]
                0 <= k < i ==> (session_value_on(all[k], session_id@) matches Some(j) ==> entry_written_well(
                    j,
                    session_id@,
                    title@,
                    updated_at@,
                )),
        decreases list@.len() - i,
    {
        let ghost before = next.deep_view();
        let ghost now = all.take(i + 1);
        proof {
            assert(now.drop_last() == all.take(i as int));
            assert(now.last() == list@[i as int]@);
            lemma_mentions(now, session_id@);
        }
        let short = trim(list[i].as_str());
        if !short.is_empty() {
            let mut on_session = false;
            if let Ok(parsed) = parse_json(short) {
                if let Some(value) = parsed.get("id") {
                    if let Some(id) = value.as_str() {
                        on_session = eq_ignore_ascii_case(id, session_id);
                    }
                }
                if on_session {
                    let mut entry = parsed;
                    proof {
                        lemma_retitled_nesting(entry@, session_id@, title@, updated_at@);
                    }
                    update_session_index_entry(&mut entry, session_id, title, updated_at);
                    match write_line(&entry) {
                        Ok(line) => {
                            let ghost m = line@;
                            next.push(line);
                            updated = true;
                            proof {
                                assert(next.deep_view() =~= before.push(m));
                            }
                        },
                        Err(e) => {
                            let mut message = "Failed to serialize session index entry: ".to_owned();
                            message.append(e.as_str());
                            proof {
                                lemma_retitled_error(all, i + 1, session_id@, title@, updated_at@);
                            }
                            return Err(message);
                        },
                    }
                }
            }
            if !on_session {
                next.push(short.to_owned());
                proof {
                    assert(next.deep_view() =~= before.push(short@));
                }
            }
        }
        i += 1;
    }
    proof {
        assert(all.take(i as int) == all);
    }
    if !updated {
        let mut entry = match existing_entry {
            Some(entry) => entry.clone(),
            None => Json::Object(JsonObject::new()),
        };
        proof {
            if nesting_within(entry@, 127) {
                lemma_retitled_nesting(entry@, session_id@, title@, updated_at@);
            }
        }
        update_session_index_entry(&mut entry, session_id, title, updated_at);
        match write_line(&entry) {
            Ok(line) => {
                let ghost before = next.deep_view();
                let ghost m = line@;
                next.push(line);
                proof {
                    assert(next.deep_view() =~= before.push(m));
                }
            },
            Err(e) => {
                let mut message = "Failed to serialize new session index entry: ".to_owned();
                message.append(e.as_str());
                return Err(message);
            },
        }
    }
    Ok(join_lines(&next))
}

/// Whether all that is known of lines holds of the line that a value of the index is written as
/// after a title was saved.
pub open spec fn entry_written_well(
    j: JsonModel,
    session_id: Seq<char>,
    title: Seq<char>,
    updated_at: Seq<char>,
) -> bool {
    let next = retitled_entry(j, session_id, title, updated_at);
    written_well(next) && nesting_within(next, 127)
}

/// Whether all that is known of lines holds of the lines that were written when a title was saved.
pub open spec fn entries_written_well(
    list: Seq<Seq<char>>,
    session_id: Seq<char>,
    title: Seq<char>,
    updated_at: Seq<char>,
    existing: Option<JsonModel>,
) -> bool {
    &&& forall|i: int| #![trigger session_value_on(list[i], session_id)]
        0 <= i < list.len() ==> (session_value_on(list[i], session_id) matches Some(j)
            ==> entry_written_well(j, session_id, title, updated_at))
    &&& !mentions(list, session_id) ==> written_well(
        retitled_entry(known_or_new(existing), session_id, title, updated_at),
    ) && (nesting_within(known_or_new(existing), 127) ==> nesting_within(
        retitled_entry(known_or_new(existing), session_id, title, updated_at),
        127,
    ))
}

/// What was known of a session from the index; otherwise an object without fields.
pub open spec fn known_or_new(existing: Option<JsonModel>) -> JsonModel {
    match existing {
        Some(j) => j,
        None => JsonModel::Object(Map::empty()),
    }
}

proof fn lemma_retitled_nesting(
    j: JsonModel,
    session_id: Seq<char>,
    title: Seq<char>,
    updated_at: Seq<char>,
)
    requires
        nesting_within(j, 127),
    ensures
        nesting_within(retitled_entry(j, session_id, title, updated_at), 127),
{
    reveal_with_fuel(nesting_within, 3);
    let fields = fields_of(j);
    let next = fields_of(retitled_entry(j, session_id, title, updated_at));
    assert forall|k: Seq<char>| next.contains_key(k) implies nesting_within(
        #[trigger] next[k],
        126,
    ) by {
        if k != "id"@ && k != "thread_name"@ && k != "updated_at"@ {
            assert(next[k] == fields[k]);
            assert(nesting_within(fields[k], 126));
        }
    }
}

/// The lines of a text, where there is one.
pub open spec fn lines_in(content: Option<Seq<char>>) -> Seq<Seq<char>> {
    match content {
        Some(text) => text_lines(text),
        None => Seq::empty(),
    }
}

proof fn lemma_mentions(list: Seq<Seq<char>>, session_id: Seq<char>)
    requires
        list.len() > 0,
    ensures
        mentions(list, session_id) == (mentions(list.drop_last(), session_id) || session_value_on(
            list.last(),
            session_id,
        ) is Some),
{
    let before = list.drop_last();
    if mentions(before, session_id) {
        let i = choose|i: int|
            0 <= i < before.len() && (#[trigger] session_value_on(before[i], session_id)) is Some;
        assert(session_value_on(list[i], session_id) is Some);
    }
    if session_value_on(list.last(), session_id) is Some {
        assert(session_value_on(list[list.len() - 1], session_id) is Some);
    }
    if mentions(list, session_id) {
        let i = choose|i: int|
            0 <= i < list.len() && (#[trigger] session_value_on(list[i], session_id)) is Some;
        if i < before.len() {
            assert(session_value_on(before[i], session_id) is Some);
        }
    }
}

proof fn lemma_retitled_error(
    list: Seq<Seq<char>>,
    n: int,
    session_id: Seq<char>,
    title: Seq<char>,
    updated_at: Seq<char>,
)
    requires
        0 <= n <= list.len(),
        retitled_lines(list.take(n), session_id, title, updated_at) is Err,
    ensures
        retitled_lines(list, session_id, title, updated_at) == retitled_lines(
            list.take(n),
            session_id,
            title,
            updated_at,
        ),
    decreases list.len(),
{
    if n < list.len() {
        let before = list.drop_last();
        assert(before.take(n) == list.take(n));
        lemma_retitled_error(before, n, session_id, title, updated_at);
    } else {
        assert(list.take(n) == list);
    }
}

// ---------------------------------------------------------------------------------------------
// Laws
// ---------------------------------------------------------------------------------------------
/// Whether the two ways in which identifiers are compared agree on the lines of the index: those
/// that are on the session with the case of ASCII letters left aside are those whose identifier is
/// the same in lower case.
pub open spec fn spellings_agree(list: Seq<Seq<char>>, session_id: Seq<char>) -> bool {
    forall|i: int| #![trigger list[i]]
        0 <= i < list.len() ==> (entry_on(list[i]) matches Some(entry) ==> ((lowercase(entry.id)
            == lowercase(session_id)) <==> session_value_on(list[i], session_id) is Some))
}

/// Whether the lines that are written when a title is saved can be read again.
pub open spec fn retitled_lines_read_again(
    list: Seq<Seq<char>>,
    session_id: Seq<char>,
    title: Seq<char>,
    updated_at: Seq<char>,
    existing: Option<JsonModel>,
) -> bool {
    &&& forall|i: int| #![trigger session_value_on(list[i], session_id)]
        0 <= i < list.len() ==> (session_value_on(list[i], session_id) matches Some(j)
            ==> reads_again(retitled_entry(j, session_id, title, updated_at)))
    &&& !mentions(list, session_id) ==> reads_again(
        retitled_entry(known_or_new(existing), session_id, title, updated_at),
    )
}

/// Whether the index says this of the session.
pub open spec fn index_says(
    index: Map<Seq<char>, IndexModel>,
    session_id: Seq<char>,
    title: Seq<char>,
    updated_at: Seq<char>,
) -> bool {
    match lookup(index, lowercase(session_id)) {
        Some(entry) => entry.id == session_id && entry.title == trimmed(title) && entry.updated_at
            == timestamp_of(updated_at),
        None => false,
    }
}

/// A title that was saved is in the index: read again, the index gives the session that title and
/// that time, and says of every other session what it said before. The lines that were written must
/// be such as can be read again, and no line may be on the session by one way to compare identifiers
/// and not by the other.
pub proof fn saved_title_is_in_the_index(
    content: Option<Seq<char>>,
    session_id: Seq<char>,
    title: Seq<char>,
    updated_at: Seq<char>,
    existing: Option<JsonModel>,
    next: Seq<Seq<char>>,
)
    requires
        upserted_lines(lines_in(content), session_id, title, updated_at, existing) == Ok::<
            Seq<Seq<char>>,
            Seq<char>,
        >(next),
        entries_written_well(lines_in(content), session_id, title, updated_at, existing),
        retitled_lines_read_again(lines_in(content), session_id, title, updated_at, existing),
        spellings_agree(lines_in(content), session_id),
    ensures
        index_says(index_of(text_lines(file_of(next))), session_id, title, updated_at),
        forall|k: Seq<char>|
            k != lowercase(session_id) ==> #[trigger] lookup(
                index_of(text_lines(file_of(next))),
                k,
            ) == lookup(index_of(lines_in(content)), k),
{
    let list = lines_in(content);
    if let Some(text) = content {
        lines_hold_no_line_feed(text);
    }
    let kept = retitled_lines(list, session_id, title, updated_at)->Ok_0;
    lemma_retitled(list, session_id, title, updated_at, kept);
    if !mentions(list, session_id) {
        lemma_written_line(known_or_new(existing), session_id, title, updated_at);
        assert(next.drop_last() =~= kept);
    }
    files_keep_their_lines(next);
    assert forall|k: Seq<char>| k != lowercase(session_id) implies #[trigger] lookup(
        index_of(next),
        k,
    ) == lookup(index_of(list), k) by {
        assert(lookup(index_of(kept), k) == lookup(index_of(list), k));
    }
}

/// Whether a line stays one line in a file.
spec fn stays_whole(line: Seq<char>) -> bool {
    one_line(line) && (line.len() > 0 ==> line.last() != '\r')
}

proof fn lemma_written_line(
    j: JsonModel,
    session_id: Seq<char>,
    title: Seq<char>,
    updated_at: Seq<char>,
)
    requires
        written_well(retitled_entry(j, session_id, title, updated_at)),
        reads_again(retitled_entry(j, session_id, title, updated_at)),
    ensures
        stays_whole(json_line(retitled_entry(j, session_id, title, updated_at))->Ok_0),
        entry_on(json_line(retitled_entry(j, session_id, title, updated_at))->Ok_0) matches Some(e)
            && e.id == session_id && e.title == trimmed(title) && e.updated_at == timestamp_of(
            updated_at,
        ),
{
    reveal_strlit("id");
    reveal_strlit("thread_name");
    reveal_strlit("updated_at");
    reveal_with_fuel(same_but_fractions, 3);
    let next = retitled_entry(j, session_id, title, updated_at);
    let line = json_line(next)->Ok_0;
    let back = json_read(line)->Ok_0;
    assert("id"@.len() != "thread_name"@.len() && "id"@.len() != "updated_at"@.len());
    assert("thread_name"@.len() != "updated_at"@.len());
    assert(!is_space('{') && !is_space('}'));
    lemma_trimmed_fixed(line);
    let fields = fields_of(next);
    assert(fields["id"@] == JsonModel::Text(session_id));
    assert(fields["thread_name"@] == JsonModel::Text(title));
    assert(fields["updated_at"@] == JsonModel::Text(updated_at));
    assert(fields.contains_key("id"@) && fields.contains_key("thread_name"@) && fields.contains_key(
        "updated_at"@,
    ));
    assert(same_but_fractions(fields["id"@], fields_of(back)["id"@]));
    assert(same_but_fractions(fields["thread_name"@], fields_of(back)["thread_name"@]));
    assert(same_but_fractions(fields["updated_at"@], fields_of(back)["updated_at"@]));
    assert(fields_of(back).dom() == fields.dom());
    assert(fields_of(back).contains_key("id"@) && fields_of(back).contains_key("thread_name"@)
        && fields_of(back).contains_key("updated_at"@));
}

proof fn lemma_retitled_step(
    list: Seq<Seq<char>>,
    session_id: Seq<char>,
    title: Seq<char>,
    updated_at: Seq<char>,
    kept: Seq<Seq<char>>,
    k: Seq<char>,
)
    requires
        list.len() > 0,
        retitled_lines(list, session_id, title, updated_at) == Ok::<Seq<Seq<char>>, Seq<char>>(kept),
        session_value_on(list.last(), session_id) matches Some(j) ==> entry_written_well(
            j,
            session_id,
            title,
            updated_at,
        ) && reads_again(retitled_entry(j, session_id, title, updated_at)),
        entry_on(list.last()) matches Some(entry) ==> ((lowercase(entry.id) == lowercase(
            session_id,
        )) <==> session_value_on(list.last(), session_id) is Some),
        k != lowercase(session_id),
        lookup(
            index_of(retitled_lines(list.drop_last(), session_id, title, updated_at)->Ok_0),
            k,
        ) == lookup(index_of(list.drop_last()), k),
    ensures
        lookup(index_of(kept), k) == lookup(index_of(list), k),
{
    let earlier = retitled_lines(list.drop_last(), session_id, title, updated_at)->Ok_0;
    trimming_is_stable(list.last());
    if session_value_on(list.last(), session_id) is Some {
        let j = session_value_on(list.last(), session_id)->0;
        lemma_written_line(j, session_id, title, updated_at);
        assert(kept.drop_last() =~= earlier);
        assert(entry_on(list.last()) is Some);
    } else if trimmed(list.last()).len() > 0 {
        assert(kept.drop_last() =~= earlier);
        assert(entry_on(trimmed(list.last())) == entry_on(list.last()));
    }
}

proof fn lemma_retitled(
    list: Seq<Seq<char>>,
    session_id: Seq<char>,
    title: Seq<char>,
    updated_at: Seq<char>,
    kept: Seq<Seq<char>>,
)
    requires
        retitled_lines(list, session_id, title, updated_at) == Ok::<Seq<Seq<char>>, Seq<char>>(kept),
        forall|i: int| 0 <= i < list.len() ==> one_line(#[trigger] list[i]),
        forall|i: int| #![trigger session_value_on(list[i], session_id)]
            0 <= i < list.len() ==> (session_value_on(list[i], session_id) matches Some(j)
                ==> entry_written_well(j, session_id, title, updated_at) && reads_again(
                retitled_entry(j, session_id, title, updated_at),
            )),
        spellings_agree(list, session_id),
    ensures
        forall|i: int| 0 <= i < kept.len() ==> stays_whole(#[trigger] kept[i]),
        mentions(list, session_id) ==> index_says(
            index_of(kept),
            session_id,
            title,
            updated_at,
        ),
        forall|k: Seq<char>|
            k != lowercase(session_id) ==> #[trigger] lookup(index_of(kept), k) == lookup(
                index_of(list),
                k,
            ),
    decreases list.len(),
{
    if list.len() > 0 {
        let before = list.drop_last();
        let last = list.last();
        let n = list.len() - 1;
        assert(last == list[n]);
        let earlier = retitled_lines(before, session_id, title, updated_at)->Ok_0;
        assert forall|i: int| 0 <= i < before.len() implies one_line(#[trigger] before[i]) by {
            assert(before[i] == list[i]);
        }
        assert forall|i: int| #![trigger session_value_on(before[i], session_id)]
            0 <= i < before.len() implies (session_value_on(before[i], session_id) matches Some(j)
            ==> entry_written_well(j, session_id, title, updated_at) && reads_again(
            retitled_entry(j, session_id, title, updated_at),
        )) by {
            assert(session_value_on(list[i], session_id) == session_value_on(
                before[i],
                session_id,
            ));
        }
        assert(spellings_agree(before, session_id)) by {
            assert forall|i: int| #![trigger before[i]]
                0 <= i < before.len() implies (entry_on(before[i]) matches Some(entry) ==> ((
            lowercase(entry.id) == lowercase(session_id)) <==> session_value_on(
                before[i],
                session_id,
            ) is Some)) by {
                assert(list[i] == before[i]);
            }
        }
        lemma_retitled(before, session_id, title, updated_at, earlier);
        lemma_mentions(list, session_id);
        assert forall|k: Seq<char>| k != lowercase(session_id) implies #[trigger] lookup(
            index_of(kept),
            k,
        ) == lookup(index_of(list), k) by {
            assert(lookup(index_of(earlier), k) == lookup(index_of(before), k));
            lemma_retitled_step(list, session_id, title, updated_at, kept, k);
        }
        trimming_is_stable(last);
        assert(is_space('\r'));
        if session_value_on(last, session_id) is Some {
            let j = session_value_on(list[n], session_id)->0;
            lemma_written_line(j, session_id, title, updated_at);
            assert(kept.drop_last() =~= earlier);
            assert forall|i: int| 0 <= i < kept.len() implies stays_whole(#[trigger] kept[i]) by {
                if i < earlier.len() {
                    assert(kept[i] == earlier[i]);
                }
            }
        } else if trimmed(last).len() > 0 {
            assert(kept.drop_last() =~= earlier);
            assert(entry_on(trimmed(last)) == entry_on(last));
            assert forall|i: int| 0 <= i < kept.len() implies stays_whole(#[trigger] kept[i]) by {
                if i < earlier.len() {
                    assert(kept[i] == earlier[i]);
                }
            }
        }
    }
}

/// A line of the index that is an object with an identifier says that identifier, its title without
/// white space at its ends, and the time that it names; any other line says nothing.
pub proof fn index_lines_say_their_fields(
    line: Seq<char>,
    fields: Map<Seq<char>, JsonModel>,
    id: Seq<char>,
    name: Seq<char>,
    time: Seq<char>,
)
    requires
        !is_blank(line),
        json_read(trimmed(line)) == Ok::<JsonModel, Seq<char>>(JsonModel::Object(fields)),
        tells(fields, "thread_name"@, name),
    ensures
        says(fields, "id"@, id) ==> (entry_on(line) matches Some(entry) && {
            &&& entry.id == id
            &&& entry.title == trimmed(name)
            &&& says(fields, "updated_at"@, time) ==> entry.updated_at == timestamp_of(time)
            &&& !(fields.contains_key("updated_at"@) && fields["updated_at"@] is Text)
                ==> entry.updated_at is None
            &&& entry.raw == JsonModel::Object(fields)
        }),
        !(fields.contains_key("id"@) && fields["id"@] is Text) ==> entry_on(line) is None,
{
}

/// Of the lines of the index on a session, the last one counts; a session that no line is on is not in
/// the index.
pub proof fn the_last_line_of_the_index_counts(list: Seq<Seq<char>>, key: Seq<char>, n: int)
    requires
        0 <= n <= list.len(),
        forall|i: int|
            n <= i < list.len() ==> (entry_on(#[trigger] list[i]) matches Some(entry)
                ==> lowercase(entry.id) != key),
    ensures
        n == 0 ==> lookup(index_of(list), key) is None,
        n > 0 ==> (entry_on(list[n - 1]) matches Some(entry) ==> (lowercase(entry.id) == key
            ==> lookup(index_of(list), key) == Some(entry))),
    decreases list.len(),
{
    if n < list.len() {
        let before = list.drop_last();
        assert forall|i: int| n <= i < before.len() implies (entry_on(
            #[trigger] before[i],
        ) matches Some(entry) ==> lowercase(entry.id) != key) by {
            assert(before[i] == list[i]);
        }
        the_last_line_of_the_index_counts(before, key, n);
        assert(list.last() == list[list.len() - 1]);
    }
}

/// Saving a title changes nothing in a value of the index but the identifier, the title and the time:
/// every other field is there exactly when it was there before, and has the value that it had.
pub proof fn index_entries_keep_their_other_fields(
    fields: Map<Seq<char>, JsonModel>,
    session_id: Seq<char>,
    title: Seq<char>,
    updated_at: Seq<char>,
)
    ensures
        retitled_entry(JsonModel::Object(fields), session_id, title, updated_at) matches
            JsonModel::Object(next) && {
            &&& says(next, "id"@, session_id)
            &&& says(next, "thread_name"@, title)
            &&& says(next, "updated_at"@, updated_at)
            &&& forall|k: Seq<char>| #![trigger next.contains_key(k)]
                #![trigger fields.contains_key(k)]
                k != "id"@ && k != "thread_name"@ && k != "updated_at"@ ==> {
                    &&& next.contains_key(k) <==> fields.contains_key(k)
                    &&& fields.contains_key(k) ==> next[k] == fields[k]
                }
        },
{
    reveal_strlit("id");
    reveal_strlit("thread_name");
    reveal_strlit("updated_at");
    assert("id"@.len() != "thread_name"@.len() && "id"@.len() != "updated_at"@.len());
    assert("thread_name"@.len() != "updated_at"@.len());
}

/// Whether a line of the index is on the session, whatever the case of the ASCII letters of its
/// identifier.
pub open spec fn line_is_on(line: Seq<char>, session_id: Seq<char>) -> bool {
    &&& !is_blank(line)
    &&& json_read(trimmed(line)) matches Ok(JsonModel::Object(fields)) && fields.contains_key("id"@)
        && (fields["id"@] matches JsonModel::Text(id) && ascii_lowercased(id)
        == ascii_lowercased(session_id))
}

/// Whether a line is what becomes of a line of the index when a title is saved: one on the session is
/// written anew with its own fields and the title, and any other is as it was.
pub open spec fn line_becomes(
    line: Seq<char>,
    next: Seq<char>,
    session_id: Seq<char>,
    title: Seq<char>,
    updated_at: Seq<char>,
) -> bool {
    if line_is_on(line, session_id) {
        json_line(
            retitled_entry(json_read(trimmed(line))->Ok_0, session_id, title, updated_at),
        ) == Ok::<Seq<char>, Seq<char>>(next)
    } else {
        next == trimmed(line)
    }
}

/// Saving a title in the index keeps its lines in their order, but for blank ones. Where no line is on
/// the session, one is added at the end, and otherwise none.
pub proof fn the_index_keeps_its_lines(
    list: Seq<Seq<char>>,
    session_id: Seq<char>,
    title: Seq<char>,
    updated_at: Seq<char>,
    existing: Option<JsonModel>,
    next: Seq<Seq<char>>,
)
    requires
        upserted_lines(list, session_id, title, updated_at, existing) == Ok::<
            Seq<Seq<char>>,
            Seq<char>,
        >(next),
    ensures
        ({
            let kept = list.filter(|line: Seq<char>| !is_blank(line));
            let known = exists|i: int| 0 <= i < list.len() && #[trigger] line_is_on(
                list[i],
                session_id,
            );
            &&& next.len() == kept.len() + if known {
                0int
            } else {
                1
            }
            &&& forall|i: int|
                0 <= i < kept.len() ==> line_becomes(
                    kept[i],
                    #[trigger] next[i],
                    session_id,
                    title,
                    updated_at,
                )
            &&& !known ==> {
                &&& existing matches Some(j) ==> json_line(
                    retitled_entry(j, session_id, title, updated_at),
                ) == Ok::<Seq<char>, Seq<char>>(next.last())
                &&& existing is None ==> json_line(
                    retitled_entry(
                        JsonModel::Object(Map::empty()),
                        session_id,
                        title,
                        updated_at,
                    ),
                ) == Ok::<Seq<char>, Seq<char>>(next.last())
            }
        }),
{
    let made = retitled_lines(list, session_id, title, updated_at)->Ok_0;
    lemma_kept_lines(list, session_id, title, updated_at, made);
    assert forall|i: int| 0 <= i < list.len() implies (#[trigger] line_is_on(list[i], session_id)
        <==> session_value_on(list[i], session_id) is Some) by {
        lemma_line_is_on(list[i], session_id);
    }
    if mentions(list, session_id) {
        let i = choose|i: int|
            0 <= i < list.len() && (#[trigger] session_value_on(list[i], session_id)) is Some;
        assert(line_is_on(list[i], session_id));
    } else {
        assert forall|i: int| 0 <= i < list.len() implies !#[trigger] line_is_on(
            list[i],
            session_id,
        ) by {
            assert(session_value_on(list[i], session_id) is None);
        }
    }
}

proof fn lemma_line_is_on(line: Seq<char>, session_id: Seq<char>)
    ensures
        line_is_on(line, session_id) <==> session_value_on(line, session_id) is Some,
        line_is_on(line, session_id) ==> session_value_on(line, session_id) == Some(
            json_read(trimmed(line))->Ok_0,
        ),
{
}

proof fn lemma_kept_lines(
    list: Seq<Seq<char>>,
    session_id: Seq<char>,
    title: Seq<char>,
    updated_at: Seq<char>,
    made: Seq<Seq<char>>,
)
    requires
        retitled_lines(list, session_id, title, updated_at) == Ok::<Seq<Seq<char>>, Seq<char>>(made),
    ensures
        ({
            let kept = list.filter(|line: Seq<char>| !is_blank(line));
            &&& made.len() == kept.len()
            &&& forall|i: int|
                0 <= i < kept.len() ==> line_becomes(
                    kept[i],
                    #[trigger] made[i],
                    session_id,
                    title,
                    updated_at,
                )
        }),
    decreases list.len(),
{
    reveal(Seq::filter);
    if list.len() > 0 {
        let before = list.drop_last();
        let earlier = retitled_lines(before, session_id, title, updated_at)->Ok_0;
        lemma_kept_lines(before, session_id, title, updated_at, earlier);
        lemma_line_is_on(list.last(), session_id);
        let kept = list.filter(|line: Seq<char>| !is_blank(line));
        let first = before.filter(|line: Seq<char>| !is_blank(line));
        assert forall|i: int| 0 <= i < kept.len() implies line_becomes(
            kept[i],
            #[trigger] made[i],
            session_id,
            title,
            updated_at,
        ) by {
            if i < first.len() {
                assert(made[i] == earlier[i]);
                assert(kept[i] == first[i]);
            }
        }
    }
}

} // verus!
