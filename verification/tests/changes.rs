use codex_console::favorites::{
    backup_to_remove, build_favorite_manifest, favorite_manifest_at, favorite_session, list_backup_sources,
    manifest_text, plan_copies, unfavorite_session, BackupSource, FavoriteCopy,
};
use codex_console::instances::{CodexSyncInstance, SessionMatch};
use codex_console::json_text::{parse_json, write_line};
use codex_console::clock::parse_rfc3339_to_timestamp;
use codex_console::session_file::{read_session_file_summary, FileContent};
use codex_console::snapshots::{load_instance_sessions, InstanceSources, SessionSnapshot};
use codex_console::threads::{SqlValue, ThreadTable};
use codex_console::titles::{
    accepted_title, thread_title_row, update_session_meta_title, update_session_title,
    upsert_rollout_title, upsert_thread_title, TitleWrite,
};

fn snapshot() -> SessionSnapshot {
    SessionSnapshot {
        id: "s".to_string(),
        title: "t".to_string(),
        cwd: "/w".to_string(),
        updated_at: Some(2),
        created_at: None,
        model_provider: " ".to_string(),
        rollout_path: None,
        row_data: None,
        session_index_entry: None,
    }
}

#[test]
fn titles_are_put_into_heads_only() {
    let mut head = parse_json("{\"payload\":{\"type\":\"session_meta\",\"id\":\"AB\"}}").unwrap();
    assert!(update_session_meta_title(&mut head, "ab", "t"));
    assert_eq!(
        write_line(&head),
        Ok("{\"payload\":{\"id\":\"AB\",\"thread_name\":\"t\",\"title\":\"t\",\"type\":\"session_meta\"}}".to_string())
    );
    let mut nameless = parse_json("{\"payload\":{\"type\":\"session_meta\",\"id\":1}}").unwrap();
    assert!(update_session_meta_title(&mut nameless, "ab", "t"));
    for text in [
        "{\"payload\":{\"type\":\"session_meta\",\"id\":\"other\"}}",
        "{\"payload\":{\"type\":\"message\"}}",
        "{\"payload\":[]}",
        "{}",
        "[]",
    ] {
        let before = parse_json(text).unwrap();
        let mut line = before.clone();
        assert!(!update_session_meta_title(&mut line, "ab", "t"));
        assert_eq!(line, before);
    }
}

#[test]
fn titles_are_saved_in_the_first_head_of_a_file() {
    let before = " first \n\n{\"payload\":{\"type\":\"session_meta\",\"id\":\"s\"}}\r\n  {\"payload\":{\"type\":\"session_meta\",\"id\":\"s\"}}";
    let after = upsert_rollout_title(Some(before), "S", "new").unwrap().unwrap();
    assert_eq!(
        after,
        "first\n\n{\"payload\":{\"id\":\"s\",\"thread_name\":\"new\",\"title\":\"new\",\"type\":\"session_meta\"}}\n\
         {\"payload\":{\"type\":\"session_meta\",\"id\":\"s\"}}\n"
    );
    let content = FileContent {
        created: None,
        modified: None,
        lines: after.lines().map(|line| Some(line.to_string())).collect(),
    };
    assert_eq!(read_session_file_summary(&content, "s").title, "new");
}

#[test]
fn files_without_a_head_are_left_alone() {
    assert_eq!(upsert_rollout_title(None, "s", "t"), Ok(None));
    assert_eq!(upsert_rollout_title(Some(""), "s", "t"), Ok(None));
    assert_eq!(upsert_rollout_title(Some("{}\nnonsense\n"), "s", "t"), Ok(None));
}

#[test]
fn an_earlier_title_in_the_file_stays_in_front() {
    let before = "{\"payload\":{\"type\":\"user_message\",\"message\":\"earlier\"}}\n{\"payload\":{\"type\":\"session_meta\"}}";
    let after = upsert_rollout_title(Some(before), "s", "new").unwrap().unwrap();
    let content = FileContent {
        created: None,
        modified: None,
        lines: after.lines().map(|line| Some(line.to_string())).collect(),
    };
    assert_eq!(read_session_file_summary(&content, "s").title, "earlier");
}

#[test]
fn the_database_gets_a_row() {
    let row = thread_title_row(&snapshot(), "new", "1970-01-01T00:00:05Z", None, 99);
    assert_eq!((row.id.as_str(), row.title.as_str(), row.cwd.as_str()), ("s", "new", "/w"));
    assert_eq!((row.created_at, row.updated_at), (5, 5));
    assert_eq!((row.model_provider.as_str(), row.rollout_path.as_str()), ("openai", ""));
    assert_eq!((row.source.as_str(), row.approval_mode.as_str()), ("cli", "never"));
    assert_eq!(row.sandbox_policy, "{\"type\":\"danger-full-access\"}");
    assert_eq!((row.cli_version.as_str(), row.first_user_message.as_str()), ("cockpit-tools", "new"));
    let row = thread_title_row(&snapshot(), "new", "no time", None, 99);
    assert_eq!((row.created_at, row.updated_at), (99, 99));
    let mut known = snapshot();
    known.created_at = Some(3);
    known.model_provider = "p".to_string();
    known.rollout_path = Some("/f".to_string());
    let row = thread_title_row(&known, "new", "1970-01-01T00:00:05Z", None, 99);
    assert_eq!((row.created_at, row.updated_at), (3, 5));
    assert_eq!((row.model_provider.as_str(), row.rollout_path.as_str()), ("p", "/f"));
    assert_eq!(thread_title_row(&known, "new", "", Some(1), 99).created_at, 1);
    assert_eq!(
        upsert_thread_title(&known, "new", "1970-01-01T00:00:05Z", Some(1)),
        thread_title_row(&known, "new", "1970-01-01T00:00:05Z", Some(1), 0)
    );
    assert!(upsert_thread_title(&known, "new", "", None).updated_at > 1_600_000_000);
}

fn write(name: &str, rollout: Result<bool, String>, index: Result<bool, String>, sqlite: Result<bool, String>) -> TitleWrite {
    TitleWrite { instance_name: name.to_string(), rollout, index, sqlite }
}

#[test]
fn saved_titles_are_counted() {
    let writes = vec![write("a", Ok(true), Ok(true), Ok(true)), write("b", Ok(true), Ok(true), Ok(true))];
    let done = update_session_title("s".to_string(), " new ", Ok(writes)).unwrap();
    assert_eq!((done.session_id.as_str(), done.title.as_str()), ("s", "new"));
    assert_eq!(done.matched_instance_count, 2);
    assert_eq!(done.rollout_file_updated_count, 2);
    assert_eq!(done.session_index_updated_count, 2);
    assert_eq!(done.sqlite_updated_count, 2);
    assert!(done.backup_paths.is_empty());
    assert!(done.warnings.is_empty());
    assert_eq!(done.message, "Updated title in 2 instance(s).");
}

#[test]
fn what_could_not_be_saved_is_a_warning() {
    let writes = vec![
        write("a", Ok(false), Ok(false), Ok(false)),
        write("b", Err("e1".to_string()), Err("e2".to_string()), Err("e3".to_string())),
    ];
    let done = update_session_title("s".to_string(), "new", Ok(writes)).unwrap();
    assert_eq!(
        done.warnings,
        vec![
            "a: session file update skipped because rollout file is missing.",
            "b: session file update failed: e1",
            "b: session_index update failed: e2",
            "b: sqlite update failed: e3",
        ]
    );
    assert_eq!(done.rollout_file_updated_count, 0);
    assert_eq!(done.session_index_updated_count, 0);
    assert_eq!(done.sqlite_updated_count, 0);
    assert_eq!(done.message, "Updated title in 2 instance(s), with 4 warning(s).");
}

#[test]
fn titles_must_not_be_empty() {
    let message = "Title cannot be empty.".to_string();
    assert_eq!(accepted_title(" \n"), Err(message.clone()));
    assert_eq!(accepted_title(" a "), Ok("a".to_string()));
    assert_eq!(update_session_title("s".to_string(), " ", Err("e".to_string())), Err(message));
}

#[test]
fn titles_are_saved_for_known_sessions_only() {
    assert_eq!(
        update_session_title("s".to_string(), "t", Ok(Vec::new())),
        Err("Session not found: s".to_string())
    );
    assert_eq!(update_session_title("s".to_string(), "t", Err("e".to_string())), Err("e".to_string()));
}

#[test]
fn backups_cover_index_database_and_file() {
    assert_eq!(
        list_backup_sources("/i", "/d", Some("/f")),
        vec!["/i", "/d", "/d-wal", "/d-shm", "/f"]
    );
    assert_eq!(list_backup_sources("/i", "/d", None), vec!["/i", "/d", "/d-wal", "/d-shm"]);
}

fn item() -> SessionMatch {
    SessionMatch {
        instance: CodexSyncInstance {
            id: "i".to_string(),
            name: "n".to_string(),
            data_dir: "/d".to_string(),
            last_pid: None,
        },
        running: false,
        snapshot: snapshot(),
    }
}

#[test]
fn backups_have_a_note_beside_them() {
    let manifest = favorite_manifest_at(&item(), &vec!["/f".to_string()], "then");
    assert_eq!(
        manifest_text("/b", &manifest),
        Ok("{\n  \"cwd\": \"/w\",\n  \"favorited_at\": \"then\",\n  \"instance_id\": \"i\",\n  \"instance_name\": \"n\",\n  \"model_provider\": \" \",\n  \"session_id\": \"s\",\n  \"source_paths\": [\n    \"/f\"\n  ]\n}".to_string())
    );
    let now = build_favorite_manifest(&item(), &Vec::new());
    let at = now.get("favorited_at").unwrap().as_str().unwrap().to_string();
    assert!(parse_rfc3339_to_timestamp(&at).unwrap() > 1_600_000_000);
    assert_eq!(now, favorite_manifest_at(&item(), &Vec::new(), &at));
}

fn copy(name: &str, has_rollout: bool, copied: Result<Vec<String>, String>) -> FavoriteCopy {
    FavoriteCopy { instance_name: name.to_string(), has_rollout, copied }
}

#[test]
fn favorites_tell_what_was_copied() {
    let done = favorite_session(
        "s".to_string(),
        Ok(vec![
            copy("a", true, Ok(vec!["/1".to_string(), "/2".to_string()])),
            copy("b", true, Ok(vec!["/3".to_string()])),
        ]),
    )
    .unwrap();
    assert_eq!(done.matched_instance_count, 2);
    assert_eq!(done.backup_paths, vec!["/1", "/2", "/3"]);
    assert!(done.warnings.is_empty());
    assert_eq!(done.message, "Favorited session in 2 instance(s).");
    let done = favorite_session("s".to_string(), Ok(vec![copy("a", false, Ok(Vec::new()))])).unwrap();
    assert_eq!(
        done.warnings,
        vec!["a: session file is missing, only index/sqlite snapshot was backed up."]
    );
    assert_eq!(done.message, "Favorited session in 1 instance(s), with 1 warning(s).");
}

#[test]
fn favorites_fail_at_the_first_error() {
    let copies = vec![
        copy("a", true, Ok(Vec::new())),
        copy("b", true, Err("e1".to_string())),
        copy("c", true, Err("e2".to_string())),
    ];
    assert_eq!(favorite_session("s".to_string(), Ok(copies)), Err("e1".to_string()));
    assert_eq!(
        favorite_session("s".to_string(), Ok(Vec::new())),
        Err("Session not found: s".to_string())
    );
    assert_eq!(favorite_session("s".to_string(), Err("e".to_string())), Err("e".to_string()));
}

#[test]
fn removed_backups_are_told() {
    let done = unfavorite_session(
        "s".to_string(),
        Ok(vec![Ok(None), Ok(Some("/b".to_string()))]),
    )
    .unwrap();
    assert_eq!(done.matched_instance_count, 2);
    assert_eq!(done.backup_paths, vec!["/b"]);
    assert!(done.warnings.is_empty());
    assert_eq!(done.message, "Removed favorite backup in 2 instance(s).");
    let done = unfavorite_session("s".to_string(), Ok(vec![Ok(None)])).unwrap();
    assert_eq!(done.warnings, vec!["No existing favorite backup was found."]);
    assert_eq!(done.message, "Removed favorite backup in 1 instance(s), with 1 warning(s).");
}

#[test]
fn removals_fail_at_the_first_error() {
    let removals = vec![Ok(Some("/b".to_string())), Err("e1".to_string()), Err("e2".to_string())];
    assert_eq!(unfavorite_session("s".to_string(), Ok(removals)), Err("e1".to_string()));
    assert_eq!(
        unfavorite_session("s".to_string(), Ok(Vec::new())),
        Err("Session not found: s".to_string())
    );
    assert_eq!(unfavorite_session("s".to_string(), Err("e".to_string())), Err("e".to_string()));
}

#[test]
fn titles_in_the_database_have_the_last_word() {
    let row = thread_title_row(&snapshot(), "new", "1970-01-01T00:00:05Z", None, 99);
    let sources = InstanceSources {
        index: Some("{\"id\":\"S\",\"thread_name\":\"indexed\",\"updated_at\":\"1970-01-01T00:09:00Z\"}".to_string()),
        threads: Some(ThreadTable {
            columns: vec!["id".to_string(), "title".to_string(), "updated_at".to_string()],
            rows: vec![vec![
                SqlValue::Text(row.id),
                SqlValue::Text(row.title),
                SqlValue::Integer(row.updated_at),
            ]],
        }),
        files: Vec::new(),
    };
    let list = load_instance_sessions(sources).unwrap();
    assert_eq!(list.len(), 1);
    assert_eq!((list[0].title.as_str(), list[0].updated_at), ("new", Some(5)));
}

#[test]
fn files_that_exist_are_copied_under_their_names() {
    let source = |path: &str, name: Option<&str>, exists: bool| BackupSource {
        path: path.to_string(),
        file_name: name.map(str::to_string),
        exists_on_disk: exists,
    };
    let copies = plan_copies(&vec![
        source("/a/x", Some("x"), true),
        source("/a/y", Some("y"), false),
        source("/", None, true),
        source("/b/z", Some("z"), true),
    ]);
    let expected = vec![
        ("/a/x".to_string(), "x".to_string()),
        ("/b/z".to_string(), "z".to_string()),
    ];
    assert_eq!(copies, expected);
}

#[test]
fn backups_are_removed_once() {
    let names = || Ok(vec!["/h".to_string(), "d".to_string()]);
    assert_eq!(backup_to_remove(names(), true), Ok(Some(names().unwrap())));
    assert_eq!(backup_to_remove(names(), false), Ok(None));
    assert_eq!(backup_to_remove(Err("e".to_string()), false), Err("e".to_string()));
    let again = unfavorite_session("s".to_string(), Ok(vec![Ok(None), Ok(None)])).unwrap();
    assert!(again.backup_paths.is_empty());
    assert_eq!(again.warnings, vec!["No existing favorite backup was found."]);
    assert_eq!(again.message, "Removed favorite backup in 2 instance(s), with 1 warning(s).");
}
