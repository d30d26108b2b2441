//! The sessions of an instance, put together from its session files, its index and its database.
use vstd::prelude::*;

use crate::index::{
    entry_on, index_of, lines_in, read_session_index_map, the_last_line_of_the_index_counts,
    IndexModel, SessionIndexEntry,
};
use crate::json::{Json, JsonModel};
use crate::listing::{
    is_listing, lemma_row_values, lemma_sorted_listing, listing, listings_are_settled,
    listings_exist,
};
use crate::order::{
    ahead, sort_ranked, text_before, text_less, text_order_is_total, Ranked, SortKey,
};
use crate::phrase::{first_filled, first_non_empty};
use crate::search::{lowercase, to_lowercase};
use crate::session_file::{
    extract_session_id, file_session_id, file_summary, head_says, no_head_says,
    read_session_file_summary, the_first_head_says_where, time_or, ContentModel, FileContent,
    SessionFileSummary, SummaryModel,
};
use crate::table::{lemma_name, lookup, names_differ, rows_map, Table};
use crate::text::{blank, is_blank, same_text, text_lines, trimmed, trimming_is_stable};
use crate::threads::{
    read_thread_rows, the_last_row_counts, thread_of, threads_of, RowModel, SqlModel,
    ThreadDbRecord, ThreadModel, ThreadRowData, ThreadTable,
};

verus! {

// ---------------------------------------------------------------------------------------------
// Snapshots
// ---------------------------------------------------------------------------------------------
/// A session as one instance knows it.
#[derive(Debug, PartialEq)]
pub struct SessionSnapshot {
    pub id: String,
    pub title: String,
    pub cwd: String,
    pub updated_at: Option<i64>,
    pub created_at: Option<i64>,
    pub model_provider: String,
    pub rollout_path: Option<String>,
    pub row_data: Option<ThreadRowData>,
    pub session_index_entry: Option<Json>,
}

/// What an instance knows of a session.
#[verifier::ext_equal]
pub struct SnapshotModel {
    pub id: Seq<char>,
    pub title: Seq<char>,
    pub cwd: Seq<char>,
    pub updated_at: Option<i64>,
    pub created_at: Option<i64>,
    pub model_provider: Seq<char>,
    pub rollout_path: Option<Seq<char>>,
    pub row_data: Option<RowModel>,
    pub session_index_entry: Option<JsonModel>,
}

impl DeepView for SessionSnapshot {
    type V = SnapshotModel;

    open spec fn deep_view(&self) -> SnapshotModel {
        SnapshotModel {
            id: self.id@,
            title: self.title@,
            cwd: self.cwd@,
            updated_at: self.updated_at,
            created_at: self.created_at,
            model_provider: self.model_provider@,
            rollout_path: self.rollout_path.deep_view(),
            row_data: self.row_data.deep_view(),
            session_index_entry: self.session_index_entry.deep_view(),
        }
    }
}

/// A copy of a text, where there is one.
pub fn copy_text(s: &Option<String>) -> (r: Option<String>)
    ensures
        r.deep_view() == s.deep_view(),
{
    match s {
        Some(s) => Some(s.clone()),
        None => None,
    }
}

impl Clone for SessionSnapshot {
    fn clone(&self) -> (r: SessionSnapshot)
        ensures
            r.deep_view() == self.deep_view(),
    {
        SessionSnapshot {
            id: self.id.clone(),
            title: self.title.clone(),
            cwd: self.cwd.clone(),
            updated_at: self.updated_at,
            created_at: self.created_at,
            model_provider: self.model_provider.clone(),
            rollout_path: copy_text(&self.rollout_path),
            row_data: match &self.row_data {
                Some(row) => Some(row.clone()),
                None => None,
            },
            session_index_entry: match &self.session_index_entry {
                Some(entry) => Some(entry.clone()),
                None => None,
            },
        }
    }
}

/// A time, or zero where there is none.
pub open spec fn or_zero(t: Option<i64>) -> int {
    match t {
        Some(t) => t as int,
        None => 0,
    }
}

/// The time, or zero where there is none.
pub fn time_or_zero(t: Option<i64>) -> (r: i64)
    ensures
        r == or_zero(t),
{
    match t {
        Some(t) => t,
        None => 0,
    }
}

/// What snapshots are sorted by: the latest first, then by title and identifier.
pub open spec fn snapshot_key(m: SnapshotModel) -> SortKey {
    SortKey { front: false, time: or_zero(m.updated_at), name: m.title, id: m.id }
}

impl Ranked for SessionSnapshot {
    open spec fn rank(m: SnapshotModel) -> SortKey {
        snapshot_key(m)
    }

    fn is_ahead(&self, other: &SessionSnapshot) -> (r: bool) {
        let mine: i64 = time_or_zero(self.updated_at);
        let theirs: i64 = time_or_zero(other.updated_at);
        if mine != theirs {
            mine > theirs
        } else if !same_text(self.title.as_str(), other.title.as_str()) {
            text_before(self.title.as_str(), other.title.as_str())
        } else {
            text_before(self.id.as_str(), other.id.as_str())
        }
    }
}

// ---------------------------------------------------------------------------------------------
// What each source adds
// ---------------------------------------------------------------------------------------------
/// `new` unless it is blank, and otherwise `before`.
pub open spec fn unless_blank(new: Seq<char>, before: Seq<char>) -> Seq<char> {
    if is_blank(new) {
        before
    } else {
        new
    }
}

/// A snapshot with what the database says of the thread put in: it goes before what was known,
/// except that a session file is not replaced.
pub open spec fn with_thread(s: SnapshotModel, thread: ThreadModel) -> SnapshotModel {
    SnapshotModel {
        title: unless_blank(thread.title, s.title),
        cwd: unless_blank(thread.cwd, s.cwd),
        model_provider: unless_blank(thread.model_provider, s.model_provider),
        created_at: time_or(thread.created_at, s.created_at),
        updated_at: time_or(thread.updated_at, s.updated_at),
        rollout_path: match s.rollout_path {
            Some(path) => Some(path),
            None => thread.rollout_path,
        },
        row_data: Some(thread.row_data),
        ..s
    }
}

/// Puts what the database says of the thread into a snapshot.
pub fn apply_thread_row_to_snapshot(snapshot: &mut SessionSnapshot, thread_row: &ThreadDbRecord)
    ensures
        final(snapshot).deep_view() == with_thread(
            old(snapshot).deep_view(),
            thread_row.deep_view(),
        ),
{
    snapshot.row_data = Some(thread_row.row_data.clone());
    if !blank(thread_row.title.as_str()) {
        snapshot.title = thread_row.title.clone();
    }
    if !blank(thread_row.cwd.as_str()) {
        snapshot.cwd = thread_row.cwd.clone();
    }
    if !blank(thread_row.model_provider.as_str()) {
        snapshot.model_provider = thread_row.model_provider.clone();
    }
    if thread_row.created_at.is_some() {
        snapshot.created_at = thread_row.created_at;
    }
    if thread_row.updated_at.is_some() {
        snapshot.updated_at = thread_row.updated_at;
    }
    if snapshot.rollout_path.is_none() {
        snapshot.rollout_path = copy_text(&thread_row.rollout_path);
    }
}

/// A session that only the database knows.
pub open spec fn thread_snapshot(thread: ThreadModel) -> SnapshotModel {
    SnapshotModel {
        id: thread.id,
        title: unless_blank(thread.title, thread.id),
        cwd: thread.cwd,
        updated_at: thread.updated_at,
        created_at: thread.created_at,
        model_provider: thread.model_provider,
        rollout_path: thread.rollout_path,
        row_data: Some(thread.row_data),
        session_index_entry: None,
    }
}

fn snapshot_from_thread(thread: &ThreadDbRecord) -> (r: SessionSnapshot)
    ensures
        r.deep_view() == thread_snapshot(thread.deep_view()),
{
    SessionSnapshot {
        id: thread.id.clone(),
        title: if blank(thread.title.as_str()) {
            thread.id.clone()
        } else {
            thread.title.clone()
        },
        cwd: thread.cwd.clone(),
        updated_at: thread.updated_at,
        created_at: thread.created_at,
        model_provider: thread.model_provider.clone(),
        rollout_path: copy_text(&thread.rollout_path),
        row_data: Some(thread.row_data.clone()),
        session_index_entry: None,
    }
}

/// A snapshot with what the index says of the session put in, where nothing was known.
pub open spec fn with_index_entry(s: SnapshotModel, entry: IndexModel) -> SnapshotModel {
    SnapshotModel {
        title: if is_blank(s.title) && !is_blank(entry.title) {
            entry.title
        } else {
            s.title
        },
        updated_at: time_or(s.updated_at, entry.updated_at),
        created_at: time_or(s.created_at, entry.updated_at),
        session_index_entry: Some(entry.raw),
        ..s
    }
}

fn apply_index_entry(snapshot: &mut SessionSnapshot, entry: &SessionIndexEntry)
    ensures
        final(snapshot).deep_view() == with_index_entry(
            old(snapshot).deep_view(),
            entry.deep_view(),
        ),
{
    snapshot.session_index_entry = Some(entry.raw.clone());
    if blank(snapshot.title.as_str()) && !blank(entry.title.as_str()) {
        snapshot.title = entry.title.clone();
    }
    if snapshot.updated_at.is_none() {
        snapshot.updated_at = entry.updated_at;
    }
    if snapshot.created_at.is_none() {
        snapshot.created_at = entry.updated_at;
    }
}

/// A session that only the index knows.
pub open spec fn index_snapshot(entry: IndexModel) -> SnapshotModel {
    SnapshotModel {
        id: entry.id,
        title: unless_blank(entry.title, entry.id),
        cwd: Seq::empty(),
        updated_at: entry.updated_at,
        created_at: entry.updated_at,
        model_provider: Seq::empty(),
        rollout_path: None,
        row_data: None,
        session_index_entry: Some(entry.raw),
    }
}

fn snapshot_from_index(entry: &SessionIndexEntry) -> (r: SessionSnapshot)
    ensures
        r.deep_view() == index_snapshot(entry.deep_view()),
{
    SessionSnapshot {
        id: entry.id.clone(),
        title: if blank(entry.title.as_str()) {
            entry.id.clone()
        } else {
            entry.title.clone()
        },
        cwd: String::new(),
        updated_at: entry.updated_at,
        created_at: entry.updated_at,
        model_provider: String::new(),
        rollout_path: None,
        row_data: None,
        session_index_entry: Some(entry.raw.clone()),
    }
}

/// A session as its file has it, with the title from the index where there is one, and with what
/// the database says.
pub open spec fn file_snapshot(
    id: Seq<char>,
    path: Seq<char>,
    summary: SummaryModel,
    entry: Option<IndexModel>,
    thread: Option<ThreadModel>,
) -> SnapshotModel {
    let indexed_title = match entry {
        Some(e) => Some(e.title),
        None => None,
    };
    let from_file = SnapshotModel {
        id,
        title: match first_filled(seq![indexed_title, Some(summary.title)]) {
            Some(title) => title,
            None => id,
        },
        cwd: summary.cwd,
        updated_at: summary.updated_at,
        created_at: summary.created_at,
        model_provider: summary.model_provider,
        rollout_path: Some(path),
        row_data: None,
        session_index_entry: match entry {
            Some(e) => Some(e.raw),
            None => None,
        },
    };
    match thread {
        Some(t) => with_thread(from_file, t),
        None => from_file,
    }
}

fn snapshot_from_file(
    id: &str,
    path: &str,
    summary: SessionFileSummary,
    entry: Option<&SessionIndexEntry>,
    thread: Option<&ThreadDbRecord>,
) -> (r: SessionSnapshot)
    ensures
        r.deep_view() == file_snapshot(
            id@,
            path@,
            summary.deep_view(),
            entry.deep_view(),
            thread.deep_view(),
        ),
{
    let indexed_title: Option<&str> = match entry {
        Some(e) => Some(e.title.as_str()),
        None => None,
    };
    let titles: [Option<&str>; 2] = [indexed_title, Some(summary.title.as_str())];
    proof {
        assert(titles.deep_view() =~= seq![indexed_title.deep_view(), Some(summary.title@)]);
    }
    let title = match first_non_empty(&titles) {
        Some(title) => title.to_owned(),
        None => id.to_owned(),
    };
    let mut snapshot = SessionSnapshot {
        id: id.to_owned(),
        title,
        cwd: summary.cwd,
        updated_at: summary.updated_at,
        created_at: summary.created_at,
        model_provider: summary.model_provider,
        rollout_path: Some(path.to_owned()),
        row_data: None,
        session_index_entry: match entry {
            Some(e) => Some(e.raw.clone()),
            None => None,
        },
    };
    if let Some(thread) = thread {
        apply_thread_row_to_snapshot(&mut snapshot, thread);
    }
    snapshot
}

// ---------------------------------------------------------------------------------------------
// The sources of an instance
// ---------------------------------------------------------------------------------------------
/// A session file of an instance as it was read. `file_name` is missing where the file has no name
/// that is text, `first_lines` where it could not be opened for its identifier; `content` says why
/// where it could not be read.
#[derive(Debug, PartialEq)]
pub struct SessionFile {
    pub path: String,
    pub file_name: Option<String>,
    pub first_lines: Option<Vec<Option<String>>>,
    pub content: Result<FileContent, String>,
}

/// What was read of a session file of an instance.
#[verifier::ext_equal]
pub struct FileModel {
    pub path: Seq<char>,
    pub file_name: Option<Seq<char>>,
    pub first_lines: Option<Seq<Option<Seq<char>>>>,
    pub content: Result<ContentModel, Seq<char>>,
}

impl DeepView for SessionFile {
    type V = FileModel;

    open spec fn deep_view(&self) -> FileModel {
        FileModel {
            path: self.path@,
            file_name: self.file_name.deep_view(),
            first_lines: self.first_lines.deep_view(),
            content: match self.content {
                Ok(content) => Ok(content.deep_view()),
                Err(e) => Err(e@),
            },
        }
    }
}

/// What an instance keeps on disk: the text of its index and its `threads` table, where they exist,
/// and its session files.
#[derive(Debug, PartialEq)]
pub struct InstanceSources {
    pub index: Option<String>,
    pub threads: Option<ThreadTable>,
    pub files: Vec<SessionFile>,
}

/// What was read of the disk of an instance.
#[verifier::ext_equal]
pub struct SourcesModel {
    pub index: Option<Seq<char>>,
    pub threads: Option<(Seq<Seq<char>>, Seq<Seq<SqlModel>>)>,
    pub files: Seq<FileModel>,
}

impl DeepView for InstanceSources {
    type V = SourcesModel;

    open spec fn deep_view(&self) -> SourcesModel {
        SourcesModel {
            index: self.index.deep_view(),
            threads: match self.threads {
                Some(t) => Some((t.columns.deep_view(), t.rows.deep_view())),
                None => None,
            },
            files: self.files.deep_view(),
        }
    }
}

/// What the database of an instance says of its threads.
pub open spec fn source_threads(sources: SourcesModel) -> Map<Seq<char>, ThreadModel> {
    match sources.threads {
        Some(t) => threads_of(t.0, t.1),
        None => Map::empty(),
    }
}

/// What the index of an instance says of its sessions.
pub open spec fn source_index(sources: SourcesModel) -> Map<Seq<char>, IndexModel> {
    index_of(lines_in(sources.index))
}

/// The sessions that files hold, by their identifiers in lower case. A file without an identifier
/// is passed over, and a later file replaces an earlier one on the same session. The first file that
/// could not be read is an error.
pub open spec fn sessions_in_files(
    files: Seq<FileModel>,
    index: Map<Seq<char>, IndexModel>,
    threads: Map<Seq<char>, ThreadModel>,
) -> Result<Map<Seq<char>, SnapshotModel>, Seq<char>>
    decreases files.len(),
{
    if files.len() == 0 {
        Ok(Map::empty())
    } else {
        let file = files.last();
        match sessions_in_files(files.drop_last(), index, threads) {
            Err(e) => Err(e),
            Ok(before) => match file_session_id(file.file_name, file.first_lines) {
                None => Ok(before),
                Some(id) => match file.content {
                    Err(e) => Err(e),
                    Ok(content) => Ok(
                        before.insert(
                            lowercase(id),
                            file_snapshot(
                                id,
                                file.path,
                                file_summary(content, id),
                                lookup(index, lowercase(id)),
                                lookup(threads, lowercase(id)),
                            ),
                        ),
                    ),
                },
            },
        }
    }
}

/// A session after the index was read.
pub open spec fn after_index(s: Option<SnapshotModel>, entry: Option<IndexModel>) -> Option<
    SnapshotModel,
> {
    match (s, entry) {
        (_, None) => s,
        (Some(s), Some(e)) => Some(with_index_entry(s, e)),
        (None, Some(e)) => Some(with_index_entry(index_snapshot(e), e)),
    }
}

/// A session after the database was read.
pub open spec fn after_threads(s: Option<SnapshotModel>, thread: Option<ThreadModel>) -> Option<
    SnapshotModel,
> {
    match (s, thread) {
        (_, None) => s,
        (Some(s), Some(t)) => Some(with_thread(s, t)),
        (None, Some(t)) => Some(with_thread(thread_snapshot(t), t)),
    }
}

/// The session that the sources know under an identifier in lower case: its file comes first, then
/// the index, and then the database.
pub open spec fn session_at(
    in_files: Map<Seq<char>, SnapshotModel>,
    index: Map<Seq<char>, IndexModel>,
    threads: Map<Seq<char>, ThreadModel>,
    key: Seq<char>,
) -> Option<SnapshotModel> {
    after_threads(after_index(lookup(in_files, key), lookup(index, key)), lookup(threads, key))
}

/// The sessions that the sources know, by their identifiers in lower case.
pub open spec fn merged_sessions(
    in_files: Map<Seq<char>, SnapshotModel>,
    index: Map<Seq<char>, IndexModel>,
    threads: Map<Seq<char>, ThreadModel>,
) -> Map<Seq<char>, SnapshotModel> {
    Map::new(
        |key: Seq<char>| session_at(in_files, index, threads, key) is Some,
        |key: Seq<char>| session_at(in_files, index, threads, key)->0,
    )
}

/// The name under which a snapshot is found.
pub open spec fn snapshot_name(m: SnapshotModel) -> Seq<char> {
    lowercase(m.id)
}

/// Whether a list holds each of the sessions once, the latest first, then by title and identifier.
pub open spec fn is_session_list(
    list: Seq<SnapshotModel>,
    sessions: Map<Seq<char>, SnapshotModel>,
) -> bool {
    is_listing(
        list,
        sessions,
        |m: SnapshotModel| snapshot_key(m),
        |m: SnapshotModel| snapshot_name(m),
    )
}

/// The sessions as a list, the latest first, then by title and identifier.
pub open spec fn session_list(sessions: Map<Seq<char>, SnapshotModel>) -> Seq<SnapshotModel> {
    listing(
        sessions,
        |m: SnapshotModel| snapshot_key(m),
        |m: SnapshotModel| snapshot_name(m),
    )
}

/// The sessions of an instance, or why they could not be read.
pub open spec fn instance_sessions(sources: SourcesModel) -> Result<
    Seq<SnapshotModel>,
    Seq<char>,
> {
    let index = source_index(sources);
    let threads = source_threads(sources);
    if sources.threads matches Some(t) && t.0.len() == 0 {
        Err("Threads table is missing."@)
    } else {
        match sessions_in_files(sources.files, index, threads) {
            Ok(in_files) => Ok(session_list(merged_sessions(in_files, index, threads))),
            Err(e) => Err(e),
        }
    }
}

// ---------------------------------------------------------------------------------------------
// Loading
// ---------------------------------------------------------------------------------------------
proof fn lemma_index_names(list: Seq<Seq<char>>)
    ensures
        forall|k: Seq<char>| #[trigger]
            index_of(list).contains_key(k) ==> k == lowercase(index_of(list)[k].id),
    decreases list.len(),
{
    if list.len() > 0 {
        lemma_index_names(list.drop_last());
    }
}

proof fn lemma_thread_names(columns: Seq<Seq<char>>, rows: Seq<Seq<SqlModel>>)
    ensures
        forall|k: Seq<char>| #[trigger]
            threads_of(columns, rows).contains_key(k) ==> k == lowercase(
                threads_of(columns, rows)[k].id,
            ),
    decreases rows.len(),
{
    if rows.len() > 0 {
        lemma_thread_names(columns, rows.drop_last());
    }
}

proof fn lemma_file_names(
    files: Seq<FileModel>,
    index: Map<Seq<char>, IndexModel>,
    threads: Map<Seq<char>, ThreadModel>,
)
    ensures
        sessions_in_files(files, index, threads) matches Ok(m) ==> forall|k: Seq<char>| #[trigger]
            m.contains_key(k) ==> k == lowercase(m[k].id),
    decreases files.len(),
{
    if files.len() > 0 {
        lemma_file_names(files.drop_last(), index, threads);
    }
}

proof fn lemma_file_error(
    files: Seq<FileModel>,
    n: int,
    index: Map<Seq<char>, IndexModel>,
    threads: Map<Seq<char>, ThreadModel>,
)
    requires
        0 <= n <= files.len(),
        sessions_in_files(files.take(n), index, threads) is Err,
    ensures
        sessions_in_files(files, index, threads) == sessions_in_files(
            files.take(n),
            index,
            threads,
        ),
    decreases files.len(),
{
    if n < files.len() {
        assert(files.drop_last().take(n) =~= files.take(n));
        lemma_file_error(files.drop_last(), n, index, threads);
    } else {
        assert(files.take(n) =~= files);
    }
}

fn load_files(
    files: &Vec<SessionFile>,
    index: &Table<SessionIndexEntry>,
    threads: &Table<ThreadDbRecord>,
) -> (r: Result<Table<SessionSnapshot>, String>)
    requires
        index.wf(),
        threads.wf(),
    ensures
        match (sessions_in_files(files.deep_view(), index@, threads@), r) {
            (Ok(m), Ok(table)) => table.wf() && table@ == m,
            (Err(e), Err(message)) => message@ == e,
            _ => false,
        },
{
    let ghost all = files.deep_view();
    let mut records: Table<SessionSnapshot> = Table::new();
    let mut i: usize = 0;
    proof {
        assert(all.take(0).len() == 0);
    }
    while i < files.len()
        invariant
            all == files.deep_view(),
            i <= files@.len(),
            index.wf(),
            threads.wf(),
            records.wf(),
            sessions_in_files(all.take(i as int), index@, threads@) == Ok::<
                Map<Seq<char>, SnapshotModel>,
                Seq<char>,
            >(records@),
        decreases files@.len() - i,
    {
        let file = &files[i];
        proof {
            assert(all.take(i + 1).drop_last() =~= all.take(i as int));
            assert(all.take(i + 1).last() == file.deep_view());
        }
        let file_name: Option<&str> = match &file.file_name {
            Some(name) => Some(name.as_str()),
            None => None,
        };
        let first_lines: Option<&Vec<Option<String>>> = match &file.first_lines {
            Some(list) => Some(list),
            None => None,
        };
        if let Some(id) = extract_session_id(file_name, first_lines) {
            match &file.content {
                Ok(content) => {
                    let key = to_lowercase(id.as_str());
                    let summary = read_session_file_summary(content, id.as_str());
                    let snapshot = snapshot_from_file(
                        id.as_str(),
                        file.path.as_str(),
                        summary,
                        index.get(key.as_str()),
                        threads.get(key.as_str()),
                    );
                    records.put(key, snapshot);
                },
                Err(e) => {
                    proof {
                        lemma_file_error(all, i + 1, index@, threads@);
                    }
                    return Err(e.clone());
                },
            }
        }
        i += 1;
    }
    proof {
        assert(all.take(i as int) =~= all);
    }
    Ok(records)
}

proof fn lemma_new_name<M>(rows: Seq<(Seq<char>, M)>, i: int)
    requires
        names_differ(rows),
        0 <= i < rows.len(),
    ensures
        !rows_map(rows.take(i)).contains_key(rows[i].0),
{
    if rows_map(rows.take(i)).contains_key(rows[i].0) {
        let j = lemma_name(rows.take(i), rows[i].0);
        assert(rows[j].0 == rows[i].0);
    }
}

fn add_index(records: &mut Table<SessionSnapshot>, index: &Table<SessionIndexEntry>)
    requires
        old(records).wf(),
        index.wf(),
    ensures
        final(records).wf(),
        forall|k: Seq<char>| #[trigger]
            lookup(final(records)@, k) == after_index(lookup(old(records)@, k), lookup(index@, k)),
{
    let ghost before = records@;
    let ghost all = index.rows.deep_view();
    let mut i: usize = 0;
    proof {
        assert(all.take(0).len() == 0);
    }
    while i < index.rows.len()
        invariant
            all == index.rows.deep_view(),
            names_differ(all),
            i <= index.rows@.len(),
            records.wf(),
            forall|k: Seq<char>| #[trigger]
                lookup(records@, k) == after_index(
                    lookup(before, k),
                    lookup(rows_map(all.take(i as int)), k),
                ),
        decreases index.rows@.len() - i,
    {
        let ghost now = records@;
        let row: &(String, SessionIndexEntry) = &index.rows[i];
        proof {
            assert(all[i as int] == (row.0@, row.1.deep_view()));
            assert(all.take(i + 1).drop_last() =~= all.take(i as int));
            lemma_new_name(all, i as int);
            assert(lookup(now, row.0@) == after_index(
                lookup(before, row.0@),
                lookup(rows_map(all.take(i as int)), row.0@),
            ));
        }
        let mut record = match records.get(row.0.as_str()) {
            Some(known) => known.clone(),
            None => snapshot_from_index(&row.1),
        };
        apply_index_entry(&mut record, &row.1);
        records.put(row.0.clone(), record);
        proof {
            assert forall|k: Seq<char>| #[trigger] lookup(records@, k) == after_index(
                lookup(before, k),
                lookup(rows_map(all.take(i + 1)), k),
            ) by {
                assert(lookup(now, k) == after_index(
                    lookup(before, k),
                    lookup(rows_map(all.take(i as int)), k),
                ));
            }
        }
        i += 1;
    }
    proof {
        assert(all.take(i as int) =~= all);
    }
}

fn add_threads(records: &mut Table<SessionSnapshot>, threads: &Table<ThreadDbRecord>)
    requires
        old(records).wf(),
        threads.wf(),
    ensures
        final(records).wf(),
        forall|k: Seq<char>| #[trigger]
            lookup(final(records)@, k) == after_threads(
                lookup(old(records)@, k),
                lookup(threads@, k),
            ),
{
    let ghost before = records@;
    let ghost all = threads.rows.deep_view();
    let mut i: usize = 0;
    proof {
        assert(all.take(0).len() == 0);
    }
    while i < threads.rows.len()
        invariant
            all == threads.rows.deep_view(),
            names_differ(all),
            i <= threads.rows@.len(),
            records.wf(),
            forall|k: Seq<char>| #[trigger]
                lookup(records@, k) == after_threads(
                    lookup(before, k),
                    lookup(rows_map(all.take(i as int)), k),
                ),
        decreases threads.rows@.len() - i,
    {
        let ghost now = records@;
        let row: &(String, ThreadDbRecord) = &threads.rows[i];
        proof {
            assert(all[i as int] == (row.0@, row.1.deep_view()));
            assert(all.take(i + 1).drop_last() =~= all.take(i as int));
            lemma_new_name(all, i as int);
            assert(lookup(now, row.0@) == after_threads(
                lookup(before, row.0@),
                lookup(rows_map(all.take(i as int)), row.0@),
            ));
        }
        let mut record = match records.get(row.0.as_str()) {
            Some(known) => known.clone(),
            None => snapshot_from_thread(&row.1),
        };
        apply_thread_row_to_snapshot(&mut record, &row.1);
        records.put(row.0.clone(), record);
        proof {
            assert forall|k: Seq<char>| #[trigger] lookup(records@, k) == after_threads(
                lookup(before, k),
                lookup(rows_map(all.take(i + 1)), k),
            ) by {
                assert(lookup(now, k) == after_threads(
                    lookup(before, k),
                    lookup(rows_map(all.take(i as int)), k),
                ));
            }
        }
        i += 1;
    }
    proof {
        assert(all.take(i as int) =~= all);
    }
}

fn sorted_values(records: Table<SessionSnapshot>) -> (r: Vec<SessionSnapshot>)
    requires
        records.wf(),
        forall|k: Seq<char>| #[trigger]
            records@.contains_key(k) ==> k == snapshot_name(records@[k]),
    ensures
        r.deep_view() == session_list(records@),
        is_session_list(r.deep_view(), records@),
{
    let ghost rows = records.rows.deep_view();
    let ghost name = |m: SnapshotModel| snapshot_name(m);
    let ghost key = |m: SnapshotModel| snapshot_key(m);
    proof {
        assert forall|k: Seq<char>| #[trigger] rows_map(rows).contains_key(k) implies k == name(
            rows_map(rows)[k],
        ) by {
            assert(records@.contains_key(k));
        }
    }
    let values = records.into_values();
    let ghost listed = values.deep_view();
    let r = sort_ranked(values);
    proof {
        lemma_row_values(rows, name);
        assert((|m: SnapshotModel| SessionSnapshot::rank(m)) =~= key);
        lemma_sorted_listing(listed, rows_map(rows), key, name);
        listings_are_settled(r.deep_view(), rows_map(rows), key, name);
    }
    r
}

/// The sessions of an instance, the latest first, then by title and identifier.
pub fn load_instance_sessions(sources: InstanceSources) -> (r: Result<Vec<SessionSnapshot>, String>)
    ensures
        match (instance_sessions(sources.deep_view()), r) {
            (Ok(list), Ok(snapshots)) => snapshots.deep_view() == list,
            (Err(e), Err(message)) => message@ == e,
            _ => false,
        },
{
    let ghost model = sources.deep_view();
    let index_text: Option<&str> = match &sources.index {
        Some(text) => Some(text.as_str()),
        None => None,
    };
    let index = read_session_index_map(index_text);
    proof {
        assert(index@ =~= source_index(model)) by {
            if model.index is None {
                assert(lines_in(model.index).len() == 0);
            }
        }
    }
    let threads = match read_thread_rows(sources.threads) {
        Ok(threads) => threads,
        Err(e) => {
            return Err(e);
        },
    };
    let mut records = match load_files(&sources.files, &index, &threads) {
        Ok(records) => records,
        Err(e) => {
            return Err(e);
        },
    };
    let ghost in_files = records@;
    add_index(&mut records, &index);
    let ghost indexed = records@;
    add_threads(&mut records, &threads);
    proof {
        let merged = merged_sessions(in_files, index@, threads@);
        assert forall|k: Seq<char>| #[trigger] lookup(records@, k) == session_at(
            in_files,
            index@,
            threads@,
            k,
        ) by {
            assert(lookup(indexed, k) == after_index(lookup(in_files, k), lookup(index@, k)));
        }
        assert forall|k: Seq<char>| records@.contains_key(k) == merged.contains_key(k) by {
            assert(lookup(records@, k) == session_at(in_files, index@, threads@, k));
        }
        assert forall|k: Seq<char>| records@.contains_key(k) implies records@[k] == merged[k] by {
            assert(lookup(records@, k) == session_at(in_files, index@, threads@, k));
        }
        assert(records@ =~= merged);
        lemma_index_names(lines_in(model.index));
        if let Some(t) = model.threads {
            lemma_thread_names(t.0, t.1);
        }
        lemma_file_names(model.files, index@, threads@);
        assert forall|k: Seq<char>| #[trigger] records@.contains_key(k) implies k == snapshot_name(
            records@[k],
        ) by {
            assert(lookup(records@, k) == session_at(in_files, index@, threads@, k));
            assert(in_files.contains_key(k) ==> k == lowercase(in_files[k].id));
            assert(index@.contains_key(k) ==> k == lowercase(index@[k].id));
            assert(threads@.contains_key(k) ==> k == lowercase(threads@[k].id));
        }
    }
    Ok(sorted_values(records))
}

// ---------------------------------------------------------------------------------------------
// Laws
// ---------------------------------------------------------------------------------------------
proof fn lemma_index_finite(list: Seq<Seq<char>>)
    ensures
        index_of(list).dom().finite(),
    decreases list.len(),
{
    if list.len() > 0 {
        lemma_index_finite(list.drop_last());
    }
}

proof fn lemma_threads_finite(columns: Seq<Seq<char>>, rows: Seq<Seq<SqlModel>>)
    ensures
        threads_of(columns, rows).dom().finite(),
    decreases rows.len(),
{
    if rows.len() > 0 {
        lemma_threads_finite(columns, rows.drop_last());
    }
}

proof fn lemma_files_finite(
    files: Seq<FileModel>,
    index: Map<Seq<char>, IndexModel>,
    threads: Map<Seq<char>, ThreadModel>,
)
    ensures
        sessions_in_files(files, index, threads) matches Ok(m) ==> m.dom().finite(),
    decreases files.len(),
{
    if files.len() > 0 {
        lemma_files_finite(files.drop_last(), index, threads);
    }
}

/// Whether one of the sources knows a session under that identifier in lower case.
pub open spec fn is_known(
    in_files: Map<Seq<char>, SnapshotModel>,
    index: Map<Seq<char>, IndexModel>,
    threads: Map<Seq<char>, ThreadModel>,
    key: Seq<char>,
) -> bool {
    in_files.contains_key(key) || index.contains_key(key) || threads.contains_key(key)
}

/// All sessions of an instance are found: whatever its files, its index or its database knows of is
/// in the list, once, and nothing else is; the list is sorted.
pub proof fn every_known_session_is_listed(sources: SourcesModel)
    requires
        instance_sessions(sources) is Ok,
    ensures
        ({
            let list = instance_sessions(sources)->Ok_0;
            let index = source_index(sources);
            let threads = source_threads(sources);
            let in_files = sessions_in_files(sources.files, index, threads)->Ok_0;
            &&& is_session_list(list, merged_sessions(in_files, index, threads))
            &&& forall|k: Seq<char>| #[trigger]
                is_known(in_files, index, threads, k) <==> exists|i: int|
                    0 <= i < list.len() && lowercase((#[trigger] list[i]).id) == k
            &&& forall|i: int, j: int|
                0 <= i < j < list.len() ==> lowercase((#[trigger] list[i]).id) != lowercase(
                    (#[trigger] list[j]).id,
                )
        }),
{
    let list = instance_sessions(sources)->Ok_0;
    let index = source_index(sources);
    let threads = source_threads(sources);
    let in_files = sessions_in_files(sources.files, index, threads)->Ok_0;
    let merged = merged_sessions(in_files, index, threads);
    let name = |m: SnapshotModel| snapshot_name(m);
    let key = |m: SnapshotModel| snapshot_key(m);
    lemma_index_finite(lines_in(sources.index));
    lemma_index_names(lines_in(sources.index));
    if let Some(t) = sources.threads {
        lemma_threads_finite(t.0, t.1);
        lemma_thread_names(t.0, t.1);
    }
    lemma_files_finite(sources.files, index, threads);
    lemma_file_names(sources.files, index, threads);
    assert(merged.dom() =~= in_files.dom().union(index.dom()).union(threads.dom()));
    assert forall|k: Seq<char>| #[trigger] merged.contains_key(k) implies k == snapshot_name(
        merged[k],
    ) by {
        assert(in_files.contains_key(k) ==> k == lowercase(in_files[k].id));
        assert(index.contains_key(k) ==> k == lowercase(index[k].id));
        assert(threads.contains_key(k) ==> k == lowercase(threads[k].id));
    }
    listings_exist(merged, key, name);
    assert forall|k: Seq<char>| #[trigger] is_known(in_files, index, threads, k) implies exists|
        i: int,
    |
        0 <= i < list.len() && lowercase((#[trigger] list[i]).id) == k by {
        assert(merged.contains_key(k));
        let i = choose|i: int| 0 <= i < list.len() && name(#[trigger] list[i]) == k;
        assert(lowercase(list[i].id) == k);
    }
    assert forall|k: Seq<char>|
        (exists|i: int| 0 <= i < list.len() && lowercase((#[trigger] list[i]).id)
            == k) implies #[trigger] is_known(in_files, index, threads, k) by {
        let i = choose|i: int| 0 <= i < list.len() && lowercase((#[trigger] list[i]).id) == k;
        assert(lookup(merged, name(list[i])) == Some(list[i]));
        assert(merged.contains_key(k));
    }
    assert forall|i: int, j: int| 0 <= i < j < list.len() implies lowercase((#[trigger] list[i]).id)
        != lowercase((#[trigger] list[j]).id) by {
        assert(name(list[i]) != name(list[j]));
    }
}

/// Where several sources know a session, the database has the last word on its title, its directory,
/// its provider and its times, as far as it says anything; the path of a session file stays, and
/// what the index holds is kept.
pub proof fn database_has_the_last_word(
    in_files: Map<Seq<char>, SnapshotModel>,
    index: Map<Seq<char>, IndexModel>,
    threads: Map<Seq<char>, ThreadModel>,
    key: Seq<char>,
)
    requires
        is_known(in_files, index, threads, key),
    ensures
        ({
            let s = session_at(in_files, index, threads, key)->0;
            &&& session_at(in_files, index, threads, key) is Some
            &&& lookup(threads, key) matches Some(t) ==> {
                &&& !is_blank(t.title) ==> s.title == t.title
                &&& !is_blank(t.cwd) ==> s.cwd == t.cwd
                &&& !is_blank(t.model_provider) ==> s.model_provider == t.model_provider
                &&& t.created_at is Some ==> s.created_at == t.created_at
                &&& t.updated_at is Some ==> s.updated_at == t.updated_at
                &&& s.row_data == Some(t.row_data)
            }
            &&& lookup(in_files, key) matches Some(f) ==> f.rollout_path is Some ==> s.rollout_path
                == f.rollout_path
            &&& lookup(index, key) matches Some(e) ==> s.session_index_entry == Some(e.raw)
            &&& !threads.contains_key(key) && !index.contains_key(key) ==> lookup(in_files, key)
                == Some(s)
        }),
{
}

/// Whether a file is the last one that holds the session with that identifier.
pub open spec fn is_last_file_of(files: Seq<FileModel>, n: int, id: Seq<char>) -> bool {
    &&& 0 <= n < files.len()
    &&& file_session_id(files[n].file_name, files[n].first_lines) == Some(id)
    &&& no_file_of(files.skip(n + 1), lowercase(id))
}

/// Whether no file holds the session with that identifier in lower case.
pub open spec fn no_file_of(files: Seq<FileModel>, key: Seq<char>) -> bool {
    forall|i: int|
        0 <= i < files.len() ==> (file_session_id(
            (#[trigger] files[i]).file_name,
            files[i].first_lines,
        ) matches Some(id) ==> lowercase(id) != key)
}

proof fn lemma_last_file(
    files: Seq<FileModel>,
    index: Map<Seq<char>, IndexModel>,
    threads: Map<Seq<char>, ThreadModel>,
    n: int,
    id: Seq<char>,
)
    requires
        is_last_file_of(files, n, id),
        sessions_in_files(files, index, threads) is Ok,
    ensures
        files[n].content is Ok,
        lookup(sessions_in_files(files, index, threads)->Ok_0, lowercase(id)) == Some(
            file_snapshot(
                id,
                files[n].path,
                file_summary(files[n].content->Ok_0, id),
                lookup(index, lowercase(id)),
                lookup(threads, lowercase(id)),
            ),
        ),
    decreases files.len(),
{
    if n < files.len() - 1 {
        let before = files.drop_last();
        assert(is_last_file_of(before, n, id)) by {
            assert forall|i: int| 0 <= i < before.skip(n + 1).len() implies (file_session_id(
                (#[trigger] before.skip(n + 1)[i]).file_name,
                before.skip(n + 1)[i].first_lines,
            ) matches Some(other) ==> lowercase(other) != lowercase(id)) by {
                assert(before.skip(n + 1)[i] == files.skip(n + 1)[i]);
            }
        }
        lemma_last_file(before, index, threads, n, id);
        assert(files.last() == files.skip(n + 1)[files.len() - n - 2]);
    }
}

proof fn lemma_no_file(
    files: Seq<FileModel>,
    index: Map<Seq<char>, IndexModel>,
    threads: Map<Seq<char>, ThreadModel>,
    key: Seq<char>,
)
    requires
        no_file_of(files, key),
        sessions_in_files(files, index, threads) is Ok,
    ensures
        lookup(sessions_in_files(files, index, threads)->Ok_0, key) is None,
    decreases files.len(),
{
    if files.len() > 0 {
        let before = files.drop_last();
        assert forall|i: int| 0 <= i < before.len() implies (file_session_id(
            (#[trigger] before[i]).file_name,
            before[i].first_lines,
        ) matches Some(id) ==> lowercase(id) != key) by {
            assert(before[i] == files[i]);
        }
        lemma_no_file(before, index, threads, key);
        assert(files.last() == files[files.len() - 1]);
    }
}

proof fn lemma_session_is_listed(sources: SourcesModel, key: Seq<char>)
    requires
        instance_sessions(sources) is Ok,
    ensures
        ({
            let index = source_index(sources);
            let threads = source_threads(sources);
            let in_files = sessions_in_files(sources.files, index, threads)->Ok_0;
            session_at(in_files, index, threads, key) matches Some(s) ==> instance_sessions(
                sources,
            )->Ok_0.contains(s)
        }),
{
    every_known_session_is_listed(sources);
    let list = instance_sessions(sources)->Ok_0;
    let index = source_index(sources);
    let threads = source_threads(sources);
    let in_files = sessions_in_files(sources.files, index, threads)->Ok_0;
    let merged = merged_sessions(in_files, index, threads);
    let name = |m: SnapshotModel| snapshot_name(m);
    if session_at(in_files, index, threads, key) is Some {
        assert(merged.contains_key(key));
        let i = choose|i: int| 0 <= i < list.len() && name(#[trigger] list[i]) == key;
        assert(lookup(merged, name(list[i])) == Some(list[i]));
    }
}

/// A session with a file that the database does not know carries what the file says: its directory is
/// that of the first head in the file that names one, and its provider is that of the first head that
/// names one, and it has none where no head does. It was changed when the file was and created when
/// the file says, and where the file does not say, when the index says. Its path is that of the file.
pub proof fn sessions_carry_what_their_file_says(
    sources: SourcesModel,
    n: int,
    id: Seq<char>,
    content: ContentModel,
    a: int,
    b: int,
    cwd: Seq<char>,
    model_provider: Seq<char>,
)
    requires
        instance_sessions(sources) is Ok,
        is_last_file_of(sources.files, n, id),
        sources.files[n].content == Ok::<ContentModel, Seq<char>>(content),
        !source_threads(sources).contains_key(lowercase(id)),
        no_head_says(content.lines, "cwd"@) && cwd.len() == 0 || 0 <= a < content.lines.len()
            && no_head_says(content.lines.take(a), "cwd"@) && head_says(
            content.lines[a],
            "cwd"@,
            cwd,
        ),
        no_head_says(content.lines, "model_provider"@) && model_provider.len() == 0 || 0 <= b
            < content.lines.len() && no_head_says(content.lines.take(b), "model_provider"@)
            && head_says(content.lines[b], "model_provider"@, model_provider),
    ensures
        exists|s: SnapshotModel|
            {
                let said = file_summary(content, id);
                let entry = lookup(source_index(sources), lowercase(id));
                &&& #[trigger] instance_sessions(sources)->Ok_0.contains(s)
                &&& s.id == id
                &&& s.rollout_path == Some(sources.files[n].path)
                &&& s.cwd == cwd
                &&& s.model_provider == model_provider
                &&& s.row_data is None
                &&& said.updated_at is Some ==> s.updated_at == said.updated_at
                &&& said.created_at is Some ==> s.created_at == said.created_at
                &&& entry matches Some(e) ==> {
                    &&& said.updated_at is None ==> s.updated_at == e.updated_at
                    &&& said.created_at is None ==> s.created_at == e.updated_at
                    &&& s.session_index_entry == Some(e.raw)
                    &&& !is_blank(e.title) ==> s.title == trimmed(e.title)
                    &&& is_blank(e.title) && !is_blank(said.title) ==> s.title == trimmed(
                        said.title,
                    )
                }
                &&& entry is None ==> {
                    &&& s.updated_at == said.updated_at
                    &&& s.created_at == said.created_at
                    &&& s.session_index_entry is None
                    &&& !is_blank(said.title) ==> s.title == trimmed(said.title)
                }
            },
{
    let key = lowercase(id);
    let index = source_index(sources);
    let threads = source_threads(sources);
    let in_files = sessions_in_files(sources.files, index, threads)->Ok_0;
    let said = file_summary(content, id);
    lemma_last_file(sources.files, index, threads, n, id);
    lemma_session_is_listed(sources, key);
    the_first_head_says_where(content, id, a, cwd);
    the_first_head_says_where(content, id, b, model_provider);
    assert(said.cwd =~= cwd);
    assert(said.model_provider =~= model_provider);
    let s = session_at(in_files, index, threads, key)->0;
    reveal_with_fuel(first_filled, 3);
    trimming_is_stable(said.title);
    let indexed = match lookup(index, key) {
        Some(e) => Some(e.title),
        None => None,
    };
    let titles = seq![indexed, Some(said.title)];
    assert(titles.drop_first() =~= seq![Some(said.title)]);
    if let Some(e) = lookup(index, key) {
        trimming_is_stable(e.title);
    }
    assert(instance_sessions(sources)->Ok_0.contains(s));
}

/// A session that both a file and the database know has the directory, the provider, the title and the
/// times that the database names, and otherwise those of the file; its path is that of the file.
pub proof fn the_database_goes_before_the_file(
    sources: SourcesModel,
    n: int,
    id: Seq<char>,
    thread: ThreadModel,
)
    requires
        instance_sessions(sources) is Ok,
        is_last_file_of(sources.files, n, id),
        lookup(source_threads(sources), lowercase(id)) == Some(thread),
    ensures
        sources.files[n].content matches Ok(content) && exists|s: SnapshotModel|
            {
                let said = file_summary(content, id);
                &&& #[trigger] instance_sessions(sources)->Ok_0.contains(s)
                &&& s.id == id
                &&& s.rollout_path == Some(sources.files[n].path)
                &&& s.row_data == Some(thread.row_data)
                &&& s.cwd == if is_blank(thread.cwd) {
                    said.cwd
                } else {
                    thread.cwd
                }
                &&& s.model_provider == if is_blank(thread.model_provider) {
                    said.model_provider
                } else {
                    thread.model_provider
                }
                &&& !is_blank(thread.title) ==> s.title == thread.title
                &&& thread.updated_at is Some ==> s.updated_at == thread.updated_at
                &&& thread.created_at is Some ==> s.created_at == thread.created_at
                &&& thread.updated_at is None && said.updated_at is Some ==> s.updated_at
                    == said.updated_at
                &&& thread.created_at is None && said.created_at is Some ==> s.created_at
                    == said.created_at
            },
{
    let key = lowercase(id);
    let index = source_index(sources);
    let threads = source_threads(sources);
    let in_files = sessions_in_files(sources.files, index, threads)->Ok_0;
    lemma_last_file(sources.files, index, threads, n, id);
    lemma_session_is_listed(sources, key);
    let s = session_at(in_files, index, threads, key)->0;
    assert(instance_sessions(sources)->Ok_0.contains(s));
}

/// A session that only the index knows has the title and the time that the index says, and neither a
/// directory nor a provider nor a path.
pub proof fn sessions_of_the_index_carry_what_it_says(
    sources: SourcesModel,
    key: Seq<char>,
    entry: IndexModel,
)
    requires
        instance_sessions(sources) is Ok,
        no_file_of(sources.files, key),
        lookup(source_index(sources), key) == Some(entry),
        !source_threads(sources).contains_key(key),
    ensures
        exists|s: SnapshotModel|
            {
                &&& #[trigger] instance_sessions(sources)->Ok_0.contains(s)
                &&& s.id == entry.id
                &&& !is_blank(entry.title) ==> s.title == entry.title
                &&& is_blank(entry.title) ==> s.title == entry.id
                &&& s.updated_at == entry.updated_at
                &&& s.created_at == entry.updated_at
                &&& s.cwd.len() == 0
                &&& s.model_provider.len() == 0
                &&& s.rollout_path is None
                &&& s.row_data is None
                &&& s.session_index_entry == Some(entry.raw)
            },
{
    let index = source_index(sources);
    let threads = source_threads(sources);
    let in_files = sessions_in_files(sources.files, index, threads)->Ok_0;
    lemma_no_file(sources.files, index, threads, key);
    lemma_session_is_listed(sources, key);
    let s = session_at(in_files, index, threads, key)->0;
    assert(instance_sessions(sources)->Ok_0.contains(s));
}

/// A session that only the database knows is what the database says: its identifier, its directory, its
/// provider, its path, its times and its row; without a title it has its identifier for one.
pub proof fn sessions_of_the_database_carry_what_it_says(
    sources: SourcesModel,
    key: Seq<char>,
    thread: ThreadModel,
)
    requires
        instance_sessions(sources) is Ok,
        no_file_of(sources.files, key),
        !source_index(sources).contains_key(key),
        lookup(source_threads(sources), key) == Some(thread),
    ensures
        exists|s: SnapshotModel|
            {
                &&& #[trigger] instance_sessions(sources)->Ok_0.contains(s)
                &&& s.id == thread.id
                &&& !is_blank(thread.title) ==> s.title == thread.title
                &&& is_blank(thread.title) ==> s.title == thread.id
                &&& s.cwd == thread.cwd
                &&& s.model_provider == thread.model_provider
                &&& s.updated_at == thread.updated_at
                &&& s.created_at == thread.created_at
                &&& s.rollout_path == thread.rollout_path
                &&& s.row_data == Some(thread.row_data)
                &&& s.session_index_entry is None
            },
{
    let index = source_index(sources);
    let threads = source_threads(sources);
    let in_files = sessions_in_files(sources.files, index, threads)->Ok_0;
    lemma_no_file(sources.files, index, threads, key);
    lemma_session_is_listed(sources, key);
    let s = session_at(in_files, index, threads, key)->0;
    assert(instance_sessions(sources)->Ok_0.contains(s));
}

/// Sessions are listed with the latest first, one without a time as if it were of the time zero; those
/// of the same time are in the order of their titles, and those of the same title in the order of
/// their identifiers.
pub proof fn the_latest_sessions_come_first(sources: SourcesModel, i: int, j: int)
    requires
        instance_sessions(sources) is Ok,
        0 <= i < j < instance_sessions(sources)->Ok_0.len(),
    ensures
        ({
            let a = instance_sessions(sources)->Ok_0[i];
            let b = instance_sessions(sources)->Ok_0[j];
            let s: int = match a.updated_at {
                Some(t) => t as int,
                None => 0,
            };
            let t: int = match b.updated_at {
                Some(t) => t as int,
                None => 0,
            };
            &&& s >= t
            &&& s == t ==> a.title == b.title || text_less(a.title, b.title)
            &&& s == t && a.title == b.title ==> a.id == b.id || text_less(a.id, b.id)
        }),
{
    every_known_session_is_listed(sources);
    let list = instance_sessions(sources)->Ok_0;
    let key = |m: SnapshotModel| snapshot_key(m);
    assert(!ahead(key(list[j]), key(list[i])));
    text_order_is_total(list[i].title, list[j].title);
    text_order_is_total(list[i].id, list[j].id);
}

/// The sessions of an instance can be read exactly when its database, where it has one, has the table,
/// and every file that holds a session could be read. Otherwise the reason is told.
pub proof fn unreadable_sources_are_told(sources: SourcesModel, n: int)
    ensures
        (sources.threads matches Some(t) && t.0.len() == 0) ==> instance_sessions(sources) == Err::<
            Seq<SnapshotModel>,
            Seq<char>,
        >("Threads table is missing."@),
        !(sources.threads matches Some(t) && t.0.len() == 0) && (forall|i: int|
            0 <= i < sources.files.len() ==> file_session_id(
                (#[trigger] sources.files[i]).file_name,
                sources.files[i].first_lines,
            ) is None || sources.files[i].content is Ok) ==> instance_sessions(sources) is Ok,
        !(sources.threads matches Some(t) && t.0.len() == 0) && 0 <= n < sources.files.len()
            && file_session_id(sources.files[n].file_name, sources.files[n].first_lines) is Some
            && (forall|i: int|
            0 <= i < n ==> file_session_id(
                (#[trigger] sources.files[i]).file_name,
                sources.files[i].first_lines,
            ) is None || sources.files[i].content is Ok) ==> (sources.files[n].content matches Err(e)
            ==> instance_sessions(sources) == Err::<Seq<SnapshotModel>, Seq<char>>(e)),
{
    let index = source_index(sources);
    let threads = source_threads(sources);
    let files = sources.files;
    if forall|i: int|
        0 <= i < files.len() ==> file_session_id(
            (#[trigger] files[i]).file_name,
            files[i].first_lines,
        ) is None || files[i].content is Ok {
        lemma_readable_files(files, index, threads);
    }
    if 0 <= n < files.len() && file_session_id(files[n].file_name, files[n].first_lines) is Some && (
    forall|i: int|
        0 <= i < n ==> file_session_id(
            (#[trigger] files[i]).file_name,
            files[i].first_lines,
        ) is None || files[i].content is Ok) && files[n].content is Err {
        let first = files.take(n);
        assert forall|i: int| 0 <= i < first.len() implies file_session_id(
            (#[trigger] first[i]).file_name,
            first[i].first_lines,
        ) is None || first[i].content is Ok by {
            assert(first[i] == files[i]);
        }
        lemma_readable_files(first, index, threads);
        assert(files.take(n + 1).drop_last() =~= first);
        assert(files.take(n + 1).last() == files[n]);
        lemma_file_error(files, n + 1, index, threads);
    }
}

proof fn lemma_readable_files(
    files: Seq<FileModel>,
    index: Map<Seq<char>, IndexModel>,
    threads: Map<Seq<char>, ThreadModel>,
)
    requires
        forall|i: int|
            0 <= i < files.len() ==> file_session_id(
                (#[trigger] files[i]).file_name,
                files[i].first_lines,
            ) is None || files[i].content is Ok,
    ensures
        sessions_in_files(files, index, threads) is Ok,
    decreases files.len(),
{
    if files.len() > 0 {
        let before = files.drop_last();
        assert forall|i: int| 0 <= i < before.len() implies file_session_id(
            (#[trigger] before[i]).file_name,
            before[i].first_lines,
        ) is None || before[i].content is Ok by {
            assert(before[i] == files[i]);
        }
        lemma_readable_files(before, index, threads);
        assert(files.last() == files[files.len() - 1]);
    }
}

/// Every session that a line of the index is on is listed, and the last line on it is what the index
/// says of it.
pub proof fn every_line_of_the_index_is_listed(
    sources: SourcesModel,
    text: Seq<char>,
    n: int,
    entry: IndexModel,
)
    requires
        instance_sessions(sources) is Ok,
        sources.index == Some(text),
        0 <= n < text_lines(text).len(),
        entry_on(text_lines(text)[n]) == Some(entry),
        forall|i: int|
            n < i < text_lines(text).len() ==> (entry_on(
                #[trigger] text_lines(text)[i],
            ) matches Some(other) ==> lowercase(other.id) != lowercase(entry.id)),
    ensures
        lookup(source_index(sources), lowercase(entry.id)) == Some(entry),
        exists|s: SnapshotModel| #[trigger]
            instance_sessions(sources)->Ok_0.contains(s) && lowercase(s.id) == lowercase(entry.id)
                && s.session_index_entry == Some(entry.raw),
{
    let key = lowercase(entry.id);
    the_last_line_of_the_index_counts(text_lines(text), key, n + 1);
    lemma_session_is_listed(sources, key);
    every_known_session_is_listed(sources);
    let index = source_index(sources);
    let threads = source_threads(sources);
    let in_files = sessions_in_files(sources.files, index, threads)->Ok_0;
    let s = session_at(in_files, index, threads, key)->0;
    lemma_file_names(sources.files, index, threads);
    assert(in_files.contains_key(key) ==> key == lowercase(in_files[key].id));
    assert(instance_sessions(sources)->Ok_0.contains(s));
}

/// Every thread that a row of the database describes is listed, and the last row on it is what the
/// database says of it.
pub proof fn every_row_of_the_database_is_listed(
    sources: SourcesModel,
    columns: Seq<Seq<char>>,
    rows: Seq<Seq<SqlModel>>,
    n: int,
    thread: ThreadModel,
)
    requires
        instance_sessions(sources) is Ok,
        sources.threads == Some((columns, rows)),
        0 <= n < rows.len(),
        thread_of((RowModel { columns, values: rows[n] })) == Some(thread),
        forall|i: int|
            n < i < rows.len() ==> (thread_of(
                (RowModel { columns, values: #[trigger] rows[i] }),
            ) matches Some(other) ==> lowercase(other.id) != lowercase(thread.id)),
    ensures
        lookup(source_threads(sources), lowercase(thread.id)) == Some(thread),
        exists|s: SnapshotModel| #[trigger]
            instance_sessions(sources)->Ok_0.contains(s) && lowercase(s.id) == lowercase(thread.id)
                && s.row_data == Some(thread.row_data),
{
    let key = lowercase(thread.id);
    the_last_row_counts(columns, rows, key, n + 1);
    lemma_session_is_listed(sources, key);
    let index = source_index(sources);
    let threads = source_threads(sources);
    let in_files = sessions_in_files(sources.files, index, threads)->Ok_0;
    let s = session_at(in_files, index, threads, key)->0;
    lemma_file_names(sources.files, index, threads);
    lemma_index_names(lines_in(sources.index));
    assert(in_files.contains_key(key) ==> key == lowercase(in_files[key].id));
    assert(index.contains_key(key) ==> key == lowercase(index[key].id));
    assert(instance_sessions(sources)->Ok_0.contains(s));
}

} // verus!
