use codex_console::index::{read_session_index_map, update_session_index_entry, upsert_session_index};
use codex_console::instances::{
    collect_instances, collect_session_matches, is_instance_running, process_home,
    CodexSyncInstance, InstanceState, InstanceStore, StoredInstance,
};
use codex_console::json_text::{parse_json, write_line};
use codex_console::session_file::{
    extract_session_id, find_session_id, is_session_file, read_session_file_summary, FileContent,
};
use codex_console::snapshots::{
    load_instance_sessions, InstanceSources, SessionFile, SessionSnapshot,
};
use codex_console::threads::{
    build_thread_query, read_thread_columns, read_thread_row, read_thread_rows, SqlValue,
    ThreadRowData, ThreadTable,
};

const ID_A: &str = "0123abcd-0123-4567-89ab-0123456789ab";
const ID_B: &str = "ffffffff-0000-1111-2222-333333333333";

fn texts(items: &[&str]) -> Vec<String> {
    items.iter().map(|item| item.to_string()).collect()
}

fn read(items: &[&str]) -> Vec<Option<String>> {
    items.iter().map(|item| Some(item.to_string())).collect()
}

fn row(columns: &[&str], values: Vec<SqlValue>) -> ThreadRowData {
    ThreadRowData { columns: texts(columns), values }
}

fn text(s: &str) -> SqlValue {
    SqlValue::Text(s.to_string())
}

fn file(id: &str, modified: u64, lines: &[&str]) -> SessionFile {
    let name = format!("rollout-{}.jsonl", id);
    SessionFile {
        path: format!("/d/sessions/{}", name),
        file_name: Some(name),
        first_lines: None,
        content: Ok(FileContent { created: Some(5), modified: Some(modified), lines: read(lines) }),
    }
}

fn by_id<'a>(list: &'a [SessionSnapshot], id: &str) -> &'a SessionSnapshot {
    list.iter().find(|s| s.id == id).unwrap()
}

// Session files

#[test]
fn session_files_end_in_jsonl() {
    assert!(is_session_file(Some("jsonl")));
    assert!(is_session_file(Some("JsonL")));
    assert!(!is_session_file(Some("json")));
    assert!(!is_session_file(None));
}

#[test]
fn identifiers_are_found_in_texts() {
    assert_eq!(find_session_id(&format!("rollout-{}.jsonl", ID_A)), Some(ID_A.to_string()));
    assert_eq!(find_session_id(&format!("{}{}", ID_A, ID_B)), Some(ID_A.to_string()));
    assert_eq!(find_session_id(&format!("0{}", ID_B)), Some(ID_B.to_string()));
    assert_eq!(find_session_id(&ID_A.to_uppercase()), None);
    assert_eq!(find_session_id("0123abcd-0123-4567-89ab-0123456789a"), None);
    assert_eq!(find_session_id(""), None);
}

#[test]
fn names_go_before_lines() {
    let lines = read(&["{\"payload\":{\"id\":\"inside\"}}"]);
    let name = format!("x-{}", ID_A);
    assert_eq!(extract_session_id(Some(&name), Some(&lines)), Some(ID_A.to_string()));
    assert_eq!(extract_session_id(Some("plain"), Some(&lines)), Some("inside".to_string()));
    assert_eq!(extract_session_id(None, Some(&lines)), Some("inside".to_string()));
    assert_eq!(extract_session_id(Some("plain"), None), None);
}

#[test]
fn only_the_first_five_lines_count() {
    let blank = "{\"payload\":{\"id\":\" \"}}";
    let named = "{\"payload\":{\"id\":\" n \"}}";
    let fifth = read(&[blank, blank, blank, blank, named]);
    assert_eq!(extract_session_id(None, Some(&fifth)), Some("n".to_string()));
    let sixth = read(&[blank, blank, blank, blank, blank, named]);
    assert_eq!(extract_session_id(None, Some(&sixth)), None);
}

#[test]
fn lines_without_identifiers_end_the_search() {
    let named = "{\"payload\":{\"id\":\"n\"}}";
    for other in ["", "no json", "{}", "{\"payload\":1}", "{\"payload\":{}}", "{\"payload\":{\"id\":1}}"] {
        assert_eq!(extract_session_id(None, Some(&read(&[other, named]))), None);
    }
    assert_eq!(extract_session_id(None, Some(&vec![None, Some(named.to_string())])), None);
}

#[test]
fn files_say_what_they_are_about() {
    let content = FileContent {
        created: Some(1),
        modified: Some(2),
        lines: vec![
            None,
            Some("no json".to_string()),
            Some("{\"payload\":{\"type\":\"session_meta\",\"thread_name\":\" \",\"cwd\":\" /w \",\"timestamp\":\"1970-01-01T00:01:00Z\"}}".to_string()),
            Some("{\"payload\":{\"type\":\"message\",\"role\":\"assistant\",\"content\":[{\"type\":\"text\",\"text\":\"no\"}]}}".to_string()),
            Some("{\"payload\":{\"type\":\"user_message\",\"message\":\"a\\n b\"}}".to_string()),
            Some("{\"payload\":{\"type\":\"user_message\",\"message\":\"later\"}}".to_string()),
            Some("{\"payload\":{\"type\":\"session_meta\",\"title\":\"t\",\"cwd\":\"/x\",\"model_provider\":\" p \",\"timestamp\":\"1970-01-01T00:02:00Z\"}}".to_string()),
        ],
    };
    let summary = read_session_file_summary(&content, "id");
    assert_eq!(summary.title, "a b");
    assert_eq!(summary.cwd, "/w");
    assert_eq!(summary.model_provider, "p");
    assert_eq!(summary.created_at, Some(60));
    assert_eq!(summary.updated_at, Some(2));
}

#[test]
fn the_search_ends_once_all_is_found() {
    let content = FileContent {
        created: None,
        modified: None,
        lines: read(&[
            "{\"payload\":{\"type\":\"session_meta\",\"title\":\"t\",\"cwd\":\"/x\",\"model_provider\":\"p\"}}",
            "{\"payload\":{\"type\":\"session_meta\",\"timestamp\":\"1970-01-01T00:02:00Z\"}}",
        ]),
    };
    assert_eq!(read_session_file_summary(&content, "id").created_at, None);
}

#[test]
fn files_without_a_title_have_the_identifier() {
    let content = FileContent { created: None, modified: Some(9), lines: Vec::new() };
    let summary = read_session_file_summary(&content, "some id");
    assert_eq!(summary.title, "some id");
    assert_eq!(summary.created_at, Some(9));
    assert_eq!(summary.updated_at, Some(9));
    let message = FileContent {
        created: Some(3),
        modified: None,
        lines: read(&["{\"payload\":{\"type\":\"message\",\"role\":\"user\",\"content\":[{\"type\":\"text\",\"text\":\"hi\"}]}}"]),
    };
    let summary = read_session_file_summary(&message, "some id");
    assert_eq!(summary.title, "hi");
    assert_eq!((summary.created_at, summary.updated_at), (Some(3), None));
}

// The database

#[test]
fn columns_are_read_by_name() {
    let r = row(
        &["a", "b", "a", "c", "d", "e"],
        vec![SqlValue::Integer(-3), text("12"), text("no"), SqlValue::Real("1.5".to_string()), SqlValue::Null],
    );
    assert_eq!(r.get_value("a"), Some(&SqlValue::Integer(-3)));
    assert_eq!(r.get_value("e"), None);
    assert_eq!(r.get_value("f"), None);
    assert_eq!(r.get_text("a"), Some("-3".to_string()));
    assert_eq!(r.get_text("b"), Some("12".to_string()));
    assert_eq!(r.get_text("c"), Some("1.5".to_string()));
    assert_eq!(r.get_text("d"), None);
    assert_eq!(r.get_i64("a"), Some(-3));
    assert_eq!(r.get_i64("b"), Some(12));
    assert_eq!(r.get_i64("c"), None);
    assert_eq!(row(&["x"], vec![SqlValue::Blob(vec![1])]).get_text("x"), None);
    assert_eq!(row(&["x"], vec![text(" 1")]).get_i64("x"), None);
}

#[test]
fn rows_describe_threads() {
    let r = row(
        &["id", "title", "cwd", "model_provider", "created_at", "updated_at", "rollout_path"],
        vec![text("I"), text(" "), text(" /w"), SqlValue::Null, SqlValue::Integer(1), text("2"), text(" ")],
    );
    let thread = read_thread_row(r.clone()).unwrap();
    assert_eq!(thread.id, "I");
    assert_eq!(thread.title, "I");
    assert_eq!(thread.cwd, " /w");
    assert_eq!(thread.model_provider, "");
    assert_eq!((thread.created_at, thread.updated_at), (Some(1), Some(2)));
    assert_eq!(thread.rollout_path, None);
    assert_eq!(thread.row_data, r);
    assert!(read_thread_row(row(&["title"], vec![text("t")])).is_none());
}

#[test]
fn later_rows_replace_earlier_ones() {
    let table = ThreadTable {
        columns: texts(&["id", "title"]),
        rows: vec![vec![text("A"), text("one")], vec![SqlValue::Null, text("x")], vec![text("a"), text("two")]],
    };
    let threads = read_thread_rows(Some(table)).unwrap();
    assert_eq!(threads.rows.len(), 1);
    assert_eq!(threads.get("a").unwrap().title, "two");
    assert!(threads.get("A").is_none());
    assert!(read_thread_rows(None).unwrap().rows.is_empty());
}

#[test]
fn a_database_without_the_table_is_an_error() {
    assert_eq!(read_thread_columns(Vec::new()), Err("Threads table is missing.".to_string()));
    assert_eq!(read_thread_columns(texts(&["id"])), Ok(texts(&["id"])));
    let empty = ThreadTable { columns: Vec::new(), rows: Vec::new() };
    assert!(matches!(read_thread_rows(Some(empty)), Err(e) if e == "Threads table is missing."));
}

#[test]
fn all_columns_are_asked_for() {
    assert_eq!(
        build_thread_query(&texts(&["id", "a\"b"])),
        "SELECT \"id\", \"a\"\"b\" FROM threads"
    );
}

// The index

#[test]
fn the_index_is_read_line_by_line() {
    let content = "{\"id\":\"A\",\"thread_name\":\" t \",\"updated_at\":\"1970-01-01T00:00:07Z\"}\n\
                   nonsense\n\n{\"thread_name\":\"no id\"}\n{\"id\":\"a\",\"updated_at\":3}\n{\"id\":\"B\"}";
    let index = read_session_index_map(Some(content));
    assert_eq!(index.rows.len(), 2);
    let a = index.get("a").unwrap();
    assert_eq!((a.id.as_str(), a.title.as_str(), a.updated_at), ("a", "", None));
    assert_eq!(index.get("b").unwrap().id, "B");
    assert!(read_session_index_map(None).rows.is_empty());
    let one = read_session_index_map(content.lines().next());
    let first = one.get("a").unwrap();
    assert_eq!((first.title.as_str(), first.updated_at), ("t", Some(7)));
}

#[test]
fn identifiers_are_compared_in_lower_case() {
    let index = read_session_index_map(Some("{\"id\":\"ÄΣ\"}"));
    assert!(index.get("äς").is_some());
    assert!(index.get("ÄΣ").is_none());
}

#[test]
fn titles_are_put_into_entries() {
    let mut entry = parse_json("{\"id\":\"x\",\"extra\":1}").unwrap();
    update_session_index_entry(&mut entry, "X", "t", "now");
    assert_eq!(
        write_line(&entry),
        Ok("{\"extra\":1,\"id\":\"X\",\"thread_name\":\"t\",\"updated_at\":\"now\"}".to_string())
    );
    let mut other = parse_json("[1]").unwrap();
    update_session_index_entry(&mut other, "X", "t", "now");
    assert_eq!(
        write_line(&other),
        Ok("{\"id\":\"X\",\"thread_name\":\"t\",\"updated_at\":\"now\"}".to_string())
    );
}

#[test]
fn saved_titles_are_read_from_the_index() {
    let before = " nonsense \n\n{\"id\":\"B\",\"thread_name\":\"b\"}\r\n{\"id\":\"a\",\"k\":[1.5]}\n{\"id\":\"A\"}\n";
    let now = "1970-01-01T00:00:09+00:00";
    let after = upsert_session_index(Some(before), "A", "new", now, None).unwrap();
    assert_eq!(
        after,
        "nonsense\n{\"id\":\"B\",\"thread_name\":\"b\"}\n\
         {\"id\":\"A\",\"k\":[1.5],\"thread_name\":\"new\",\"updated_at\":\"1970-01-01T00:00:09+00:00\"}\n\
         {\"id\":\"A\",\"thread_name\":\"new\",\"updated_at\":\"1970-01-01T00:00:09+00:00\"}\n"
    );
    let index = read_session_index_map(Some(&after));
    let a = index.get("a").unwrap();
    assert_eq!((a.title.as_str(), a.updated_at), ("new", Some(9)));
    assert_eq!(index.get("b").unwrap().title, "b");
}

#[test]
fn sessions_that_are_not_in_the_index_are_added() {
    let known = parse_json("{\"id\":\"old\",\"k\":1}").unwrap();
    assert_eq!(
        upsert_session_index(None, "S", "t", "n", Some(&known)),
        Ok("{\"id\":\"S\",\"k\":1,\"thread_name\":\"t\",\"updated_at\":\"n\"}\n".to_string())
    );
    assert_eq!(
        upsert_session_index(Some("{\"id\":\"K\"}"), "S", "t", "n", None),
        Ok("{\"id\":\"K\"}\n{\"id\":\"S\",\"thread_name\":\"t\",\"updated_at\":\"n\"}\n".to_string())
    );
}

#[test]
fn spellings_beyond_ascii_are_two_sessions_to_the_writer() {
    let kelvin = "{\"id\":\"\u{212a}\",\"thread_name\":\"old\"}";
    let after = upsert_session_index(Some(kelvin), "k", "new", "n", None).unwrap();
    assert_eq!(after.lines().count(), 2);
    assert_eq!(read_session_index_map(Some(&after)).rows.len(), 1);
}

// All sources of an instance

fn sources(index: Option<&str>, rows: Vec<Vec<SqlValue>>, files: Vec<SessionFile>) -> InstanceSources {
    InstanceSources {
        index: index.map(str::to_string),
        threads: Some(ThreadTable {
            columns: texts(&["id", "title", "cwd", "created_at", "updated_at", "rollout_path"]),
            rows,
        }),
        files,
    }
}

#[test]
fn all_sources_are_put_together() {
    let index = format!(
        "{{\"id\":\"{}\",\"thread_name\":\"indexed\"}}\n{{\"id\":\"only-index\",\"updated_at\":\"1970-01-01T00:00:04Z\"}}",
        ID_A
    );
    let list = load_instance_sessions(sources(
        Some(&index),
        vec![
            vec![text(ID_B), text("from db"), text("/db"), SqlValue::Integer(1), SqlValue::Integer(50), text("/other")],
            vec![text("only-db"), SqlValue::Null, SqlValue::Null, SqlValue::Null, SqlValue::Null, text("/p")],
        ],
        vec![
            file(ID_A, 20, &["{\"payload\":{\"type\":\"session_meta\",\"title\":\"file\",\"cwd\":\"/f\"}}"]),
            file(ID_B, 30, &["{\"payload\":{\"type\":\"session_meta\",\"title\":\"file\",\"cwd\":\"/f\"}}"]),
        ],
    ))
    .unwrap();
    let order: Vec<&str> = list.iter().map(|s| s.id.as_str()).collect();
    assert_eq!(order, vec![ID_B, ID_A, "only-index", "only-db"]);
    let a = by_id(&list, ID_A);
    assert_eq!((a.title.as_str(), a.cwd.as_str()), ("indexed", "/f"));
    assert_eq!((a.created_at, a.updated_at), (Some(5), Some(20)));
    assert!(a.row_data.is_none());
    assert!(a.session_index_entry.is_some());
    let b = by_id(&list, ID_B);
    assert_eq!((b.title.as_str(), b.cwd.as_str()), ("from db", "/db"));
    assert_eq!((b.created_at, b.updated_at), (Some(1), Some(50)));
    assert_eq!(b.rollout_path, Some(format!("/d/sessions/rollout-{}.jsonl", ID_B)));
    assert!(b.row_data.is_some());
    let i = by_id(&list, "only-index");
    assert_eq!(i.title, "only-index");
    assert_eq!((i.created_at, i.updated_at), (Some(4), Some(4)));
    assert_eq!(i.rollout_path, None);
    let d = by_id(&list, "only-db");
    assert_eq!((d.title.as_str(), d.updated_at), ("only-db", None));
    assert_eq!(d.rollout_path, Some("/p".to_string()));
    assert!(d.session_index_entry.is_none());
}

#[test]
fn one_session_is_listed_once() {
    let upper = ID_A.to_uppercase();
    let list = load_instance_sessions(sources(
        Some(&format!("{{\"id\":\"{}\"}}", upper)),
        vec![vec![text(&upper), text("db"), SqlValue::Null, SqlValue::Null, SqlValue::Null, SqlValue::Null]],
        vec![file(ID_A, 1, &[]), file(ID_A, 2, &[])],
    ))
    .unwrap();
    assert_eq!(list.len(), 1);
    assert_eq!(list[0].id, ID_A);
    assert_eq!(list[0].title, "db");
    assert_eq!(list[0].updated_at, Some(2));
}

#[test]
fn sessions_at_one_time_are_sorted_by_title_and_identifier() {
    let line = |id: &str, title: &str| format!("{{\"id\":\"{}\",\"thread_name\":\"{}\"}}\n", id, title);
    let index = format!("{}{}{}{}", line("4", "b"), line("3", "a"), line("2", "ä"), line("1", "b"));
    let list = load_instance_sessions(InstanceSources { index: Some(index), threads: None, files: Vec::new() }).unwrap();
    let order: Vec<&str> = list.iter().map(|s| s.id.as_str()).collect();
    assert_eq!(order, vec!["3", "1", "4", "2"]);
}

#[test]
fn files_without_identifiers_are_passed_over() {
    let mut nameless = file(ID_A, 1, &[]);
    nameless.file_name = Some("notes.jsonl".to_string());
    nameless.first_lines = Some(read(&["{}"]));
    nameless.content = Err("not read".to_string());
    let list = load_instance_sessions(sources(None, Vec::new(), vec![nameless])).unwrap();
    assert!(list.is_empty());
}

#[test]
fn the_first_file_that_cannot_be_read_is_an_error() {
    let mut first = file(ID_A, 1, &[]);
    first.content = Err("first".to_string());
    let mut second = file(ID_B, 1, &[]);
    second.content = Err("second".to_string());
    let r = load_instance_sessions(sources(None, Vec::new(), vec![first, second]));
    assert_eq!(r, Err("first".to_string()));
}

// Instances

fn stored(id: &str, name: &str, dir: &str) -> StoredInstance {
    StoredInstance {
        id: id.to_string(),
        name: name.to_string(),
        user_data_dir: dir.to_string(),
        last_pid: Some(1),
    }
}

#[test]
fn instances_without_a_directory_are_left_out() {
    let store = InstanceStore {
        default_last_pid: Some(9),
        instances: vec![stored("1", " ", " /one "), stored("2", "two", " "), stored("3", " three", "/3")],
    };
    let list = collect_instances(Ok("/home/.codex".to_string()), Ok(store)).unwrap();
    let shown: Vec<(&str, &str, &str)> =
        list.iter().map(|i| (i.id.as_str(), i.name.as_str(), i.data_dir.as_str())).collect();
    assert_eq!(
        shown,
        vec![("__default__", "Default", "/home/.codex"), ("1", "Instance", "/one"), ("3", " three", "/3")]
    );
    assert_eq!(list[0].last_pid, Some(9));
    assert_eq!(process_home(&list[0]), None);
    assert_eq!(process_home(&list[1]), Some("/one"));
    assert!(is_instance_running(Some(4)));
    assert!(!is_instance_running(None));
}

#[test]
fn instances_that_cannot_be_had_are_an_error() {
    let store = || InstanceStore { default_last_pid: None, instances: Vec::new() };
    assert_eq!(collect_instances(Err("a".to_string()), Ok(store())), Err("a".to_string()));
    assert_eq!(collect_instances(Ok("d".to_string()), Err("b".to_string())), Err("b".to_string()));
    assert_eq!(collect_instances(Err("a".to_string()), Err("b".to_string())), Err("a".to_string()));
}

fn state(id: &str, sources: Result<InstanceSources, String>) -> InstanceState {
    InstanceState {
        instance: CodexSyncInstance {
            id: id.to_string(),
            name: id.to_string(),
            data_dir: "/".to_string(),
            last_pid: None,
        },
        running: id == "r",
        sources,
    }
}

fn indexed(ids: &[&str]) -> Result<InstanceSources, String> {
    let index: String = ids.iter().map(|id| format!("{{\"id\":\"{}\"}}\n", id)).collect();
    Ok(InstanceSources { index: Some(index), threads: None, files: Vec::new() })
}

#[test]
fn sessions_are_looked_for_in_all_instances() {
    let states = || vec![state("r", indexed(&["b", "A"])), state("s", indexed(&["a"]))];
    let all = collect_session_matches(states(), None).unwrap();
    let found: Vec<(&str, &str, bool)> =
        all.iter().map(|m| (m.instance.id.as_str(), m.snapshot.id.as_str(), m.running)).collect();
    assert_eq!(found, vec![("r", "A", true), ("r", "b", true), ("s", "a", false)]);
    for spelling in ["a", "A"] {
        let some = collect_session_matches(states(), Some(spelling)).unwrap();
        let found: Vec<&str> = some.iter().map(|m| m.snapshot.id.as_str()).collect();
        assert_eq!(found, vec!["A", "a"]);
    }
    assert!(collect_session_matches(states(), Some("c")).unwrap().is_empty());
}

#[test]
fn an_instance_that_cannot_be_read_is_an_error() {
    let states = vec![
        state("r", indexed(&["a"])),
        state("s", Err("first".to_string())),
        state("t", Err("second".to_string())),
    ];
    assert_eq!(collect_session_matches(states, None), Err("first".to_string()));
}

#[test]
fn one_session_is_found_as_it_is_listed() {
    let states = || vec![state("r", indexed(&["b", "A"])), state("s", indexed(&["a", "c"]))];
    let all = collect_session_matches(states(), None).unwrap();
    let some = collect_session_matches(states(), Some("a")).unwrap();
    let listed: Vec<_> = all.into_iter().filter(|m| m.snapshot.id.to_lowercase() == "a").collect();
    assert_eq!(some, listed);
    assert_eq!(some.len(), 2);
}
