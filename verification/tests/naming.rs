use codex_console::file_uri::{accept_readonly_uri, readonly_uri};
use codex_console::naming::{
    get_session_backup_base_dir, get_session_favorite_dir, is_session_favorited, quote_identifier,
    sanitize_for_file_name, shm_path, wal_path,
};

#[test]
fn file_names_hold_plain_characters_only() {
    assert_eq!(sanitize_for_file_name("a-Z_9"), "a-Z_9");
    assert_eq!(sanitize_for_file_name("../a b:c"), "___a_b_c");
    assert_eq!(sanitize_for_file_name("é"), "_");
    let once = sanitize_for_file_name("x/y\\z.");
    assert_eq!(once, "x_y_z_");
    assert_eq!(sanitize_for_file_name(&once), once);
}

#[test]
fn favorites_lie_below_the_home_directory() {
    assert_eq!(
        get_session_backup_base_dir(Some("/home/me")).unwrap(),
        vec!["/home/me", ".codex", "cockpit-tools-session-favorites"]
    );
    assert_eq!(
        get_session_favorite_dir(Some("/home/me"), "../up", "id 1").unwrap(),
        vec!["/home/me", ".codex", "cockpit-tools-session-favorites", "___up", "id_1"]
    );
}

#[test]
fn favorites_need_a_home_directory() {
    let message = "Failed to resolve home directory.".to_string();
    assert_eq!(get_session_backup_base_dir(None), Err(message.clone()));
    assert_eq!(get_session_favorite_dir(None, "i", "s"), Err(message));
}

#[test]
fn favorites_exist_on_disk() {
    let known = get_session_favorite_dir(Some("/h"), "i", "s");
    assert!(is_session_favorited(&known, true));
    assert!(!is_session_favorited(&known, false));
    let unknown = get_session_favorite_dir(None, "i", "s");
    assert!(!is_session_favorited(&unknown, true));
}

#[test]
fn a_database_has_two_files_beside_it() {
    assert_eq!(wal_path("/d/state_5.sqlite"), "/d/state_5.sqlite-wal");
    assert_eq!(shm_path("/d/state_5.sqlite"), "/d/state_5.sqlite-shm");
}

#[test]
fn quotation_marks_in_names_are_doubled() {
    assert_eq!(quote_identifier("id"), "\"id\"");
    assert_eq!(quote_identifier("a\"b"), "\"a\"\"b\"");
    assert_eq!(quote_identifier("\""), "\"\"\"\"");
    assert_eq!(quote_identifier(""), "\"\"");
}

#[test]
fn databases_are_opened_by_an_address() {
    assert_eq!(
        readonly_uri("/data/state_5.sqlite"),
        Ok("file:///data/state_5.sqlite?mode=ro".to_string())
    );
    assert_eq!(
        readonly_uri("/my data/a?b"),
        Ok("file:///my%20data/a%3Fb?mode=ro".to_string())
    );
}

#[test]
fn names_in_addresses_are_encoded() {
    let address = |path: &str| readonly_uri(path).unwrap();
    assert_eq!(address("/"), "file:///?mode=ro");
    assert_eq!(address("/a//b/./c/"), "file:///a/b/c?mode=ro");
    assert_eq!(address("/a/../b"), "file:///a/../b?mode=ro");
    assert_eq!(address("//a"), "file:///a?mode=ro");
    assert_eq!(address("/\u{e9}\u{4e2d}"), "file:///%C3%A9%E4%B8%AD?mode=ro");
    assert_eq!(
        address("/\"#%<>\\`{}\u{7f}\t"),
        "file:///%22%23%25%3C%3E%5C%60%7B%7D%7F%09?mode=ro"
    );
    assert_eq!(
        address("/!$&'()*+,-.:;=@[]^_|~09azAZ"),
        "file:///!$&'()*+,-.:;=@[]^_|~09azAZ?mode=ro"
    );
}

#[test]
fn relative_paths_have_no_address() {
    assert_eq!(
        readonly_uri("data/x"),
        Err("Failed to build readonly URI for data/x".to_string())
    );
    assert_eq!(
        accept_readonly_uri("p", None),
        Err("Failed to build readonly URI for p".to_string())
    );
    assert_eq!(accept_readonly_uri("p", Some("u".to_string())), Ok("u".to_string()));
}

#[test]
fn backups_of_plain_sessions_lie_apart() {
    let dir = |i: &str, s: &str| get_session_favorite_dir(Some("/h"), i, s).unwrap();
    assert_ne!(dir("i", "a"), dir("i", "b"));
    assert_ne!(dir("i", "a"), dir("j", "a"));
    assert_eq!(dir("i", "a/b"), dir("i", "a_b"));
}
