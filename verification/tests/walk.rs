use codex_console::walk::{DirectoryEntry, SessionFileWalk};

fn directory(path: usize) -> DirectoryEntry {
    DirectoryEntry { path, is_dir: true, is_file: false, extension: Some("jsonl".to_string()) }
}

fn file(path: usize, extension: &str) -> DirectoryEntry {
    DirectoryEntry { path, is_dir: false, is_file: true, extension: Some(extension.to_string()) }
}

#[test]
fn files_are_found_at_every_depth() {
    let mut walk = SessionFileWalk::begin(0, true);
    let mut read = Vec::new();
    while let Some(path) = walk.next_directory() {
        read.push(path);
        let entries = match path {
            0 => vec![directory(1), file(2, "jsonl"), directory(3)],
            1 => vec![file(4, "JSONL")],
            3 => vec![file(5, "txt"), directory(6)],
            _ => vec![file(7, "jsonl")],
        };
        walk.on_entries(&entries);
    }
    assert_eq!(read, vec![0, 3, 6, 1]);
    assert_eq!(walk.files, vec![2, 7, 4]);
    assert!(walk.pending.is_empty());
}

#[test]
fn only_session_files_are_taken() {
    let mut walk = SessionFileWalk::begin(0, true);
    walk.next_directory();
    walk.on_entries(&vec![
        file(1, "json"),
        DirectoryEntry { path: 2, is_dir: false, is_file: true, extension: None },
        DirectoryEntry { path: 3, is_dir: false, is_file: false, extension: Some("jsonl".to_string()) },
        directory(4),
        file(5, "jsonl"),
    ]);
    assert_eq!(walk.files, vec![5]);
    assert_eq!(walk.pending, vec![4]);
}

#[test]
fn directories_that_are_missing_hold_nothing() {
    let mut walk = SessionFileWalk::begin(0, false);
    assert_eq!(walk.next_directory(), None);
    assert!(walk.files.is_empty());
}
