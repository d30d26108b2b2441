//! The rows of the `threads` table of the state database.
use vstd::prelude::*;

use crate::decimal::{int_text, parse_i64, read_i64, signed_text};
use crate::naming::{quote_identifier, quoted};
use crate::search::{lowercase, to_lowercase};
use crate::table::Table;
use crate::text::{blank, is_blank, join, joined, same_text};

verus! {

// ---------------------------------------------------------------------------------------------
// Values and rows
// ---------------------------------------------------------------------------------------------
/// A value of the database. A floating-point number is held as the text that it is displayed as.
#[derive(Debug, PartialEq, Eq)]
pub enum SqlValue {
    Null,
    Integer(i64),
    Real(String),
    Text(String),
    Blob(Vec<u8>),
}

/// What a value of the database is.
#[verifier::ext_equal]
pub enum SqlModel {
    Null,
    Integer(i64),
    Real(Seq<char>),
    Text(Seq<char>),
    Blob(Seq<u8>),
}

impl DeepView for SqlValue {
    type V = SqlModel;

    open spec fn deep_view(&self) -> SqlModel {
        match self {
            SqlValue::Null => SqlModel::Null,
            SqlValue::Integer(n) => SqlModel::Integer(*n),
            SqlValue::Real(s) => SqlModel::Real(s@),
            SqlValue::Text(s) => SqlModel::Text(s@),
            SqlValue::Blob(b) => SqlModel::Blob(b@),
        }
    }
}

impl Clone for SqlValue {
    fn clone(&self) -> (r: SqlValue)
        ensures
            r.deep_view() == self.deep_view(),
    {
        match self {
            SqlValue::Null => SqlValue::Null,
            SqlValue::Integer(n) => SqlValue::Integer(*n),
            SqlValue::Real(s) => SqlValue::Real(s.clone()),
            SqlValue::Text(s) => SqlValue::Text(s.clone()),
            SqlValue::Blob(b) => {
                let copy = b.clone();
                proof {
                    assert(copy@ =~= b@);
                }
                SqlValue::Blob(copy)
            },
        }
    }
}

/// A row of the table: the names of the columns, and the values in them.
#[derive(Debug, PartialEq, Eq)]
pub struct ThreadRowData {
    pub columns: Vec<String>,
    pub values: Vec<SqlValue>,
}

/// What a row holds.
#[verifier::ext_equal]
pub struct RowModel {
    pub columns: Seq<Seq<char>>,
    pub values: Seq<SqlModel>,
}

impl DeepView for ThreadRowData {
    type V = RowModel;

    open spec fn deep_view(&self) -> RowModel {
        RowModel { columns: self.columns.deep_view(), values: self.values.deep_view() }
    }
}

/// A copy of a list of texts.
pub fn copy_texts(list: &Vec<String>) -> (r: Vec<String>)
    ensures
        r.deep_view() == list.deep_view(),
{
    let mut out: Vec<String> = Vec::new();
    let mut i: usize = 0;
    while i < list.len()
        invariant
            i <= list@.len(),
            out@.len() == i,
            forall|k: int| 0 <= k < i ==> (#[trigger] out@[k])@ == list@[k]@,
        decreases list@.len() - i,
    {
        out.push(list[i].clone());
        i += 1;
    }
    proof {
        assert(out.deep_view() =~= list.deep_view());
    }
    out
}

impl Clone for ThreadRowData {
    fn clone(&self) -> (r: ThreadRowData)
        ensures
            r.deep_view() == self.deep_view(),
    {
        let mut values: Vec<SqlValue> = Vec::new();
        let mut i: usize = 0;
        while i < self.values.len()
            invariant
                i <= self.values@.len(),
                values@.len() == i,
                forall|k: int|
                    0 <= k < i ==> (#[trigger] values@[k]).deep_view()
                        == self.values@[k].deep_view(),
            decreases self.values@.len() - i,
        {
            values.push(self.values[i].clone());
            i += 1;
        }
        proof {
            assert(values.deep_view() =~= self.values.deep_view());
        }
        ThreadRowData { columns: copy_texts(&self.columns), values }
    }
}

/// The position of the first `x` in a list, or the length of the list where there is none.
pub open spec fn first_text(list: Seq<Seq<char>>, x: Seq<char>) -> int
    decreases list.len(),
{
    if list.len() == 0 || list[0] == x {
        0
    } else {
        1 + first_text(list.drop_first(), x)
    }
}

/// The value in the first column of that name, where there is one.
pub open spec fn column_value(row: RowModel, column: Seq<char>) -> Option<SqlModel> {
    let at = first_text(row.columns, column);
    if at < row.columns.len() && at < row.values.len() {
        Some(row.values[at])
    } else {
        None
    }
}

/// The value in a column as a text: a text or a number.
pub open spec fn column_text(row: RowModel, column: Seq<char>) -> Option<Seq<char>> {
    match column_value(row, column) {
        Some(SqlModel::Text(s)) => Some(s),
        Some(SqlModel::Integer(n)) => Some(int_text(n as int)),
        Some(SqlModel::Real(s)) => Some(s),
        _ => None,
    }
}

/// The value in a column as a whole number: such a number, or a text that denotes one.
pub open spec fn column_int(row: RowModel, column: Seq<char>) -> Option<i64> {
    match column_value(row, column) {
        Some(SqlModel::Integer(n)) => Some(n),
        Some(SqlModel::Text(s)) => read_i64(s),
        _ => None,
    }
}

proof fn lemma_first_text(list: Seq<Seq<char>>, x: Seq<char>, at: int)
    requires
        0 <= at <= list.len(),
        forall|k: int| 0 <= k < at ==> list[k] != x,
        at < list.len() ==> list[at] == x,
    ensures
        first_text(list, x) == at,
    decreases list.len(),
{
    if list.len() > 0 && list[0] != x {
        lemma_first_text(list.drop_first(), x, at - 1);
    }
}

impl ThreadRowData {
    /// The value in the first column of that name.
    pub fn get_value(&self, column: &str) -> (r: Option<&SqlValue>)
        ensures
            r.deep_view() == column_value(self.deep_view(), column@),
    {
        let mut at: usize = 0;
        while at < self.columns.len() && !same_text(self.columns[at].as_str(), column)
            invariant
                at <= self.columns@.len(),
                forall|k: int| 0 <= k < at ==> (#[trigger] self.columns@[k])@ != column@,
            decreases self.columns@.len() - at,
        {
            at += 1;
        }
        proof {
            lemma_first_text(self.columns.deep_view(), column@, at as int);
        }
        if at < self.columns.len() && at < self.values.len() {
            Some(&self.values[at])
        } else {
            None
        }
    }

    /// The value in a column as a text.
    pub fn get_text(&self, column: &str) -> (r: Option<String>)
        ensures
            r.deep_view() == column_text(self.deep_view(), column@),
    {
        match self.get_value(column) {
            Some(SqlValue::Text(s)) => Some(s.clone()),
            Some(SqlValue::Integer(n)) => Some(signed_text(*n)),
            Some(SqlValue::Real(s)) => Some(s.clone()),
            _ => None,
        }
    }

    /// The value in a column as a whole number.
    pub fn get_i64(&self, column: &str) -> (r: Option<i64>)
        ensures
            r == column_int(self.deep_view(), column@),
    {
        match self.get_value(column) {
            Some(SqlValue::Integer(n)) => Some(*n),
            Some(SqlValue::Text(s)) => parse_i64(s.as_str()),
            _ => None,
        }
    }
}

// ---------------------------------------------------------------------------------------------
// Threads
// ---------------------------------------------------------------------------------------------
/// What the database says of a thread.
#[derive(Debug, PartialEq, Eq)]
pub struct ThreadDbRecord {
    pub id: String,
    pub title: String,
    pub cwd: String,
    pub model_provider: String,
    pub created_at: Option<i64>,
    pub updated_at: Option<i64>,
    pub rollout_path: Option<String>,
    pub row_data: ThreadRowData,
}

/// What is known of a thread.
#[verifier::ext_equal]
pub struct ThreadModel {
    pub id: Seq<char>,
    pub title: Seq<char>,
    pub cwd: Seq<char>,
    pub model_provider: Seq<char>,
    pub created_at: Option<i64>,
    pub updated_at: Option<i64>,
    pub rollout_path: Option<Seq<char>>,
    pub row_data: RowModel,
}

impl DeepView for ThreadDbRecord {
    type V = ThreadModel;

    open spec fn deep_view(&self) -> ThreadModel {
        ThreadModel {
            id: self.id@,
            title: self.title@,
            cwd: self.cwd@,
            model_provider: self.model_provider@,
            created_at: self.created_at,
            updated_at: self.updated_at,
            rollout_path: self.rollout_path.deep_view(),
            row_data: self.row_data.deep_view(),
        }
    }
}

/// The text in a column, unless it is blank.
pub open spec fn column_said(row: RowModel, column: Seq<char>) -> Option<Seq<char>> {
    match column_text(row, column) {
        Some(s) if !is_blank(s) => Some(s),
        _ => None,
    }
}

/// What is said, or nothing.
pub open spec fn said_or(said: Option<Seq<char>>, other: Seq<char>) -> Seq<char> {
    match said {
        Some(s) => s,
        None => other,
    }
}

/// The thread that a row describes. A row without an identifier describes none; a thread without a
/// title has its identifier for one.
pub open spec fn thread_of(row: RowModel) -> Option<ThreadModel> {
    match column_text(row, "id"@) {
        Some(id) => Some(
            ThreadModel {
                id,
                title: said_or(column_said(row, "title"@), id),
                cwd: said_or(column_said(row, "cwd"@), Seq::empty()),
                model_provider: said_or(column_said(row, "model_provider"@), Seq::empty()),
                created_at: column_int(row, "created_at"@),
                updated_at: column_int(row, "updated_at"@),
                rollout_path: column_said(row, "rollout_path"@),
                row_data: row,
            },
        ),
        None => None,
    }
}

/// The threads that rows describe, by their identifiers in lower case. A later row replaces an
/// earlier one with the same identifier.
pub open spec fn threads_of(columns: Seq<Seq<char>>, rows: Seq<Seq<SqlModel>>) -> Map<
    Seq<char>,
    ThreadModel,
>
    decreases rows.len(),
{
    if rows.len() == 0 {
        Map::empty()
    } else {
        let before = threads_of(columns, rows.drop_last());
        match thread_of(RowModel { columns, values: rows.last() }) {
            Some(thread) => before.insert(lowercase(thread.id), thread),
            None => before,
        }
    }
}

fn said(row: &ThreadRowData, column: &str) -> (r: Option<String>)
    ensures
        r.deep_view() == column_said(row.deep_view(), column@),
{
    match row.get_text(column) {
        Some(s) => if blank(s.as_str()) {
            None
        } else {
            Some(s)
        },
        None => None,
    }
}

fn text_or_else(s: Option<String>, other: &str) -> (r: String)
    ensures
        r@ == said_or(s.deep_view(), other@),
{
    match s {
        Some(s) => s,
        None => other.to_owned(),
    }
}

/// The thread that a row describes.
pub fn read_thread_row(row_data: ThreadRowData) -> (r: Option<ThreadDbRecord>)
    ensures
        r.deep_view() == thread_of(row_data.deep_view()),
{
    let id = match row_data.get_text("id") {
        Some(id) => id,
        None => {
            return None;
        },
    };
    proof {
        reveal_strlit("");
        assert(""@ =~= Seq::<char>::empty());
    }
    let title = text_or_else(said(&row_data, "title"), id.as_str());
    let cwd = text_or_else(said(&row_data, "cwd"), "");
    let model_provider = text_or_else(said(&row_data, "model_provider"), "");
    let rollout_path = said(&row_data, "rollout_path");
    let created_at: Option<i64> = row_data.get_i64("created_at");
    let updated_at: Option<i64> = row_data.get_i64("updated_at");
    Some(
        ThreadDbRecord {
            id,
            title,
            cwd,
            model_provider,
            created_at,
            updated_at,
            rollout_path,
            row_data,
        },
    )
}

/// The `threads` table as it was read: the names of its columns, and the values of its rows.
#[derive(Debug, PartialEq, Eq)]
pub struct ThreadTable {
    pub columns: Vec<String>,
    pub rows: Vec<Vec<SqlValue>>,
}

/// The columns of the table, which has some where it exists at all.
pub fn read_thread_columns(columns: Vec<String>) -> (r: Result<Vec<String>, String>)
    ensures
        match r {
            Ok(list) => columns@.len() > 0 && list@ == columns@,
            Err(e) => columns@.len() == 0 && e@ == "Threads table is missing."@,
        },
{
    if columns.len() == 0 {
        Err("Threads table is missing.".to_owned())
    } else {
        Ok(columns)
    }
}

/// The query that reads all columns of all rows of the table.
pub open spec fn thread_query(columns: Seq<Seq<char>>) -> Seq<char> {
    "SELECT "@ + joined(columns.map_values(|c: Seq<char>| quoted(c)), ", "@) + " FROM threads"@
}

/// The query that reads all columns of all rows of the table.
pub fn build_thread_query(columns: &Vec<String>) -> (r: String)
    ensures
        r@ == thread_query(columns.deep_view()),
{
    let mut names: Vec<String> = Vec::new();
    let mut i: usize = 0;
    while i < columns.len()
        invariant
            i <= columns@.len(),
            names@.len() == i,
            forall|k: int| 0 <= k < i ==> (#[trigger] names@[k])@ == quoted(columns@[k]@),
        decreases columns@.len() - i,
    {
        names.push(quote_identifier(columns[i].as_str()));
        i += 1;
    }
    proof {
        assert(names.deep_view() =~= columns.deep_view().map_values(|c: Seq<char>| quoted(c)));
    }
    let mut query = "SELECT ".to_owned();
    query.append(join(&names, ", ").as_str());
    query.append(" FROM threads");
    query
}

/// The threads of an instance by their identifiers in lower case. Where there is no database there
/// are none; a database without the table is an error.
pub fn read_thread_rows(table: Option<ThreadTable>) -> (r: Result<Table<ThreadDbRecord>, String>)
    ensures
        match table {
            None => r matches Ok(threads) && threads.wf() && threads@ == Map::<
                Seq<char>,
                ThreadModel,
            >::empty(),
            Some(t) => match r {
                Ok(threads) => t.columns@.len() > 0 && threads.wf() && threads@ == threads_of(
                    t.columns.deep_view(),
                    t.rows.deep_view(),
                ),
                Err(e) => t.columns@.len() == 0 && e@ == "Threads table is missing."@,
            },
        },
{
    let mut threads: Table<ThreadDbRecord> = Table::new();
    let table = match table {
        Some(table) => table,
        None => {
            return Ok(threads);
        },
    };
    let ghost columns_model = table.columns.deep_view();
    let ghost all = table.rows.deep_view();
    let columns = match read_thread_columns(table.columns) {
        Ok(columns) => columns,
        Err(e) => {
            return Err(e);
        },
    };
    proof {
        assert(columns.deep_view() == columns_model);
        assert(all.take(0).len() == 0);
    }
    for values in it: table.rows
        invariant
            it.seq() == table.rows@,
            all == table.rows.deep_view(),
            columns.deep_view() == columns_model,
            threads.wf(),
            threads@ == threads_of(columns_model, all.take(it.index() as int)),
    {
        proof {
            let n = it.index() as int;
            assert(all.take(n + 1).drop_last() == all.take(n));
            assert(all.take(n + 1).last() == values.deep_view());
        }
        let row_data = ThreadRowData { columns: copy_texts(&columns), values };
        if let Some(thread) = read_thread_row(row_data) {
            threads.put(to_lowercase(thread.id.as_str()), thread);
        }
    }
    proof {
        assert(all.take(all.len() as int) == all);
    }
    Ok(threads)
}

// ---------------------------------------------------------------------------------------------
// Laws
// ---------------------------------------------------------------------------------------------
/// Whether a row has a value under the name of a column: the first column of that name counts.
pub open spec fn row_has(row: RowModel, column: Seq<char>, value: SqlModel) -> bool {
    exists|at: int|
        {
            &&& 0 <= at < row.columns.len()
            &&& at < row.values.len()
            &&& #[trigger] row.columns[at] == column
            &&& row.values[at] == value
            &&& forall|k: int| 0 <= k < at ==> row.columns[k] != column
        }
}

proof fn lemma_row_has(row: RowModel, column: Seq<char>, value: SqlModel)
    ensures
        row_has(row, column, value) <==> column_value(row, column) == Some(value),
{
    lemma_first_text_place(row.columns, column);
    if row_has(row, column, value) {
        let at = choose|at: int|
            {
                &&& 0 <= at < row.columns.len()
                &&& at < row.values.len()
                &&& #[trigger] row.columns[at] == column
                &&& row.values[at] == value
                &&& forall|k: int| 0 <= k < at ==> row.columns[k] != column
            };
        lemma_first_text(row.columns, column, at);
    }
    if column_value(row, column) == Some(value) {
        let at = first_text(row.columns, column);
        assert(row.columns[at] == column);
    }
}

proof fn lemma_first_text_place(list: Seq<Seq<char>>, x: Seq<char>)
    ensures
        0 <= first_text(list, x) <= list.len(),
        first_text(list, x) < list.len() ==> list[first_text(list, x)] == x,
        forall|k: int| 0 <= k < first_text(list, x) ==> list[k] != x,
    decreases list.len(),
{
    if list.len() > 0 && list[0] != x {
        let rest = list.drop_first();
        lemma_first_text_place(rest, x);
        assert forall|k: int| 0 <= k < first_text(list, x) implies list[k] != x by {
            if k > 0 {
                assert(rest[k - 1] == list[k]);
            }
        }
    }
}

/// A row describes a thread by its columns: the identifier is that in the column of identifiers, and
/// the title, the directory, the provider, the path and the times are those in their own columns, as
/// far as they say anything.
pub proof fn rows_describe_their_thread(row: RowModel, id: Seq<char>, text: Seq<char>, time: i64)
    requires
        row_has(row, "id"@, SqlModel::Text(id)),
    ensures
        thread_of(row) matches Some(thread) && {
            &&& thread.id == id
            &&& thread.row_data == row
            &&& row_has(row, "title"@, SqlModel::Text(text)) ==> thread.title == if is_blank(text) {
                id
            } else {
                text
            }
            &&& row_has(row, "cwd"@, SqlModel::Text(text)) && !is_blank(text) ==> thread.cwd == text
            &&& row_has(row, "cwd"@, SqlModel::Null) ==> thread.cwd.len() == 0
            &&& row_has(row, "model_provider"@, SqlModel::Text(text)) && !is_blank(text)
                ==> thread.model_provider == text
            &&& row_has(row, "model_provider"@, SqlModel::Null) ==> thread.model_provider.len() == 0
            &&& row_has(row, "rollout_path"@, SqlModel::Text(text)) ==> thread.rollout_path
                == if is_blank(text) {
                None
            } else {
                Some(text)
            }
            &&& row_has(row, "rollout_path"@, SqlModel::Null) ==> thread.rollout_path is None
            &&& row_has(row, "created_at"@, SqlModel::Integer(time)) ==> thread.created_at == Some(
                time,
            )
            &&& row_has(row, "created_at"@, SqlModel::Null) ==> thread.created_at is None
            &&& row_has(row, "updated_at"@, SqlModel::Integer(time)) ==> thread.updated_at == Some(
                time,
            )
            &&& row_has(row, "updated_at"@, SqlModel::Null) ==> thread.updated_at is None
        },
{
    lemma_row_has(row, "id"@, SqlModel::Text(id));
    lemma_row_has(row, "title"@, SqlModel::Text(text));
    lemma_row_has(row, "cwd"@, SqlModel::Text(text));
    lemma_row_has(row, "cwd"@, SqlModel::Null);
    lemma_row_has(row, "model_provider"@, SqlModel::Text(text));
    lemma_row_has(row, "model_provider"@, SqlModel::Null);
    lemma_row_has(row, "rollout_path"@, SqlModel::Text(text));
    lemma_row_has(row, "rollout_path"@, SqlModel::Null);
    lemma_row_has(row, "created_at"@, SqlModel::Integer(time));
    lemma_row_has(row, "created_at"@, SqlModel::Null);
    lemma_row_has(row, "updated_at"@, SqlModel::Integer(time));
    lemma_row_has(row, "updated_at"@, SqlModel::Null);
}

/// A number stands for its text where a text is asked for, and a text that denotes a whole number for
/// that number; nothing else is either.
pub proof fn columns_are_read_as_asked(row: RowModel, column: Seq<char>, n: i64, text: Seq<char>)
    ensures
        row_has(row, column, SqlModel::Integer(n)) ==> column_text(row, column) == Some(
            int_text(n as int),
        ) && column_int(row, column) == Some(n),
        row_has(row, column, SqlModel::Text(text)) ==> column_text(row, column) == Some(text)
            && column_int(row, column) == read_i64(text),
        row_has(row, column, SqlModel::Real(text)) ==> column_text(row, column) == Some(text)
            && column_int(row, column) is None,
        row_has(row, column, SqlModel::Null) ==> column_text(row, column) is None && column_int(
            row,
            column,
        ) is None,
        !row.columns.contains(column) ==> column_text(row, column) is None && column_int(
            row,
            column,
        ) is None,
{
    lemma_row_has(row, column, SqlModel::Integer(n));
    lemma_row_has(row, column, SqlModel::Text(text));
    lemma_row_has(row, column, SqlModel::Real(text));
    lemma_row_has(row, column, SqlModel::Null);
    lemma_first_text_place(row.columns, column);
}

/// Of the rows with an identifier, the last one counts; a thread that no row describes is not known.
pub proof fn the_last_row_counts(
    columns: Seq<Seq<char>>,
    rows: Seq<Seq<SqlModel>>,
    key: Seq<char>,
    n: int,
)
    requires
        0 <= n <= rows.len(),
        forall|i: int|
            n <= i < rows.len() ==> (thread_of(
                (RowModel { columns, values: #[trigger] rows[i] }),
            ) matches Some(thread) ==> lowercase(thread.id) != key),
    ensures
        n == 0 ==> !threads_of(columns, rows).contains_key(key),
        n > 0 ==> (thread_of((RowModel { columns, values: rows[n - 1] })) matches Some(thread) ==> (
        lowercase(thread.id) == key ==> threads_of(columns, rows).contains_key(key) && threads_of(
            columns,
            rows,
        )[key] == thread)),
    decreases rows.len(),
{
    if n < rows.len() {
        let before = rows.drop_last();
        assert forall|i: int| n <= i < before.len() implies (thread_of(
            (RowModel { columns, values: #[trigger] before[i] }),
        ) matches Some(thread) ==> lowercase(thread.id) != key) by {
            assert(before[i] == rows[i]);
        }
        the_last_row_counts(columns, before, key, n);
        assert(rows.last() == rows[rows.len() - 1]);
    }
}

/// The query asks for every column by its name, between quotation marks and in order, and for nothing
/// else.
pub proof fn queries_name_every_column(columns: Seq<Seq<char>>, column: Seq<char>)
    ensures
        thread_query(seq![column]) == "SELECT "@ + quoted(column) + " FROM threads"@,
        thread_query(columns) == "SELECT "@ + joined(
            columns.map_values(|c: Seq<char>| quoted(c)),
            ", "@,
        ) + " FROM threads"@,
{
    assert(seq![column].map_values(|c: Seq<char>| quoted(c)) =~= seq![quoted(column)]);
}

} // verus!
