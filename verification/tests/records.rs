use codex_console::instances::{CodexSyncInstance, SessionMatch};
use codex_console::naming::{get_session_favorite_dir, is_session_favorited};
use codex_console::records::{
    build_record_from_snapshot, choose_session_match, get_session_timeline,
    list_sessions_across_instances, merge_snapshot_into_record, record_of_matches,
    timeline_source, MatchOnDisk,
};
use codex_console::snapshots::SessionSnapshot;

fn snapshot(id: &str, title: &str, updated_at: Option<i64>, path: Option<&str>) -> SessionSnapshot {
    SessionSnapshot {
        id: id.to_string(),
        title: title.to_string(),
        cwd: String::new(),
        updated_at,
        created_at: updated_at,
        model_provider: String::new(),
        rollout_path: path.map(str::to_string),
        row_data: None,
        session_index_entry: None,
    }
}

fn instance(id: &str) -> CodexSyncInstance {
    CodexSyncInstance {
        id: id.to_string(),
        name: format!("name {}", id),
        data_dir: String::new(),
        last_pid: None,
    }
}

fn found(id: &str, running: bool, snapshot: SessionSnapshot) -> MatchOnDisk {
    let has_file = snapshot.rollout_path.is_some();
    MatchOnDisk {
        item: SessionMatch { instance: instance(id), running, snapshot },
        favorited: false,
        has_file,
    }
}

#[test]
fn records_begin_without_places() {
    let record = build_record_from_snapshot(&snapshot("s", " ", Some(3), Some("/p")));
    assert_eq!((record.session_id.as_str(), record.title.as_str()), ("s", "s"));
    assert_eq!(record.session_path, Some("/p".to_string()));
    assert_eq!(record.location_count, 0);
    assert!(!record.is_favorite);
    assert!(record.locations.is_empty());
}

#[test]
fn later_snapshots_take_over() {
    let mut record = build_record_from_snapshot(&snapshot("s", "old", Some(3), Some("/old")));
    let mut later = snapshot("S", "new", Some(4), None);
    later.cwd = "/w".to_string();
    later.created_at = Some(1);
    merge_snapshot_into_record(&mut record, &instance("i"), false, false, &later);
    assert_eq!((record.title.as_str(), record.cwd.as_str()), ("new", "/w"));
    assert_eq!(record.session_path, Some("/old".to_string()));
    assert_eq!((record.created_at, record.updated_at), (Some(1), Some(4)));
    assert_eq!(record.session_id, "s");
    assert_eq!(record.location_count, 1);
}

#[test]
fn earlier_snapshots_only_fill_in() {
    let mut record = build_record_from_snapshot(&snapshot("s", "old", Some(3), Some("/old")));
    record.cwd = "/w".to_string();
    record.model_provider = "p".to_string();
    merge_snapshot_into_record(&mut record, &instance("i"), false, true, &snapshot("s", "new", Some(2), Some("/new")));
    assert_eq!(record.title, "old");
    assert_eq!(record.session_path, Some("/old".to_string()));
    assert_eq!((record.created_at, record.updated_at), (Some(2), Some(3)));
    assert!(record.is_favorite);
    merge_snapshot_into_record(&mut record, &instance("j"), false, false, &snapshot("s", " ", None, None));
    assert!(record.is_favorite);
    assert_eq!(record.created_at, Some(2));
    assert_eq!(record.location_count, 2);
}

#[test]
fn snapshots_with_more_to_say_take_over() {
    let mut record = build_record_from_snapshot(&snapshot("s", "old", Some(3), None));
    merge_snapshot_into_record(&mut record, &instance("i"), false, false, &snapshot("s", "new", Some(1), Some("/p")));
    assert_eq!(record.title, "new");
    assert_eq!(record.session_path, Some("/p".to_string()));
    assert_eq!(record.updated_at, Some(3));
}

#[test]
fn places_are_sorted() {
    let matches = vec![
        found("b", false, snapshot("s", "t", Some(5), None)),
        found("a", false, snapshot("s", "t", Some(5), None)),
        found("c", false, snapshot("s", "t", Some(9), None)),
        found("d", true, snapshot("s", "t", None, None)),
    ];
    let record = record_of_matches(&matches);
    let order: Vec<&str> = record.locations.iter().map(|l| l.instance_id.as_str()).collect();
    assert_eq!(order, vec!["d", "c", "a", "b"]);
    assert_eq!(record.location_count, 4);
    assert_eq!(record.updated_at, Some(9));
    assert_eq!(record.created_at, Some(5));
    assert_eq!(record.locations[0].instance_name, "name d");
}

#[test]
fn places_that_rank_alike_keep_their_order() {
    let twin = |path: &str| {
        let mut m = found("a", false, snapshot("s", "t", Some(5), Some(path)));
        m.item.instance.id = path.to_string();
        m
    };
    let record = record_of_matches(&vec![twin("/1"), twin("/2"), twin("/3")]);
    let order: Vec<&str> = record.locations.iter().map(|l| l.instance_id.as_str()).collect();
    assert_eq!(order, vec!["/1", "/2", "/3"]);
}

#[test]
fn each_session_is_listed_once() {
    let list = list_sessions_across_instances(Ok(vec![
        found("a", false, snapshot("X", "t", Some(1), None)),
        found("a", false, snapshot("y", "u", Some(7), None)),
        found("b", false, snapshot("x", "v", Some(8), None)),
    ]))
    .unwrap();
    let shown: Vec<(&str, &str, usize)> =
        list.iter().map(|r| (r.session_id.as_str(), r.title.as_str(), r.location_count)).collect();
    assert_eq!(shown, vec![("X", "v", 2), ("y", "u", 1)]);
}

#[test]
fn records_of_one_time_are_sorted_by_title_and_identifier() {
    let list = list_sessions_across_instances(Ok(vec![
        found("a", false, snapshot("3", "b", None, None)),
        found("a", false, snapshot("2", "b", Some(0), None)),
        found("a", false, snapshot("1", "c", None, None)),
        found("a", false, snapshot("4", "a", None, None)),
        found("a", false, snapshot("5", "z", Some(-1), None)),
    ]))
    .unwrap();
    let order: Vec<&str> = list.iter().map(|r| r.session_id.as_str()).collect();
    assert_eq!(order, vec!["4", "2", "3", "1", "5"]);
}

#[test]
fn sessions_that_cannot_be_collected_are_an_error() {
    assert_eq!(list_sessions_across_instances(Err("e".to_string())), Err("e".to_string()));
    assert_eq!(list_sessions_across_instances(Ok(Vec::new())), Ok(Vec::new()));
}

#[test]
fn the_preferred_instance_is_chosen_where_its_file_exists() {
    let matches = vec![
        found("a", true, snapshot("s", "t", Some(9), Some("/a"))),
        found("b", false, snapshot("s", "t", Some(1), Some("/b"))),
        found("c", false, snapshot("s", "t", Some(1), None)),
    ];
    assert_eq!(choose_session_match(&matches, Some("b")).unwrap().item.instance.id, "b");
    assert_eq!(choose_session_match(&matches, Some("c")).unwrap().item.instance.id, "a");
    assert_eq!(choose_session_match(&matches, Some("z")).unwrap().item.instance.id, "a");
    assert_eq!(choose_session_match(&matches, None).unwrap().item.instance.id, "a");
    assert_eq!(timeline_source(&matches, Some(" b ")), Some("/b".to_string()));
    assert_eq!(timeline_source(&matches, Some("  ")), Some("/a".to_string()));
    assert!(choose_session_match(&Vec::new(), None).is_none());
}

#[test]
fn existing_files_go_before_running_instances_and_late_ones() {
    let late = found("late", false, snapshot("s", "t", Some(9), None));
    let running = found("running", true, snapshot("s", "t", Some(1), None));
    let filed = found("filed", false, snapshot("s", "t", None, Some("/f")));
    assert_eq!(choose_session_match(&vec![late, running, filed], None).unwrap().item.instance.id, "filed");
    let late = found("late", false, snapshot("s", "t", Some(9), None));
    let running = found("running", true, snapshot("s", "t", Some(1), None));
    assert_eq!(choose_session_match(&vec![running, late], None).unwrap().item.instance.id, "running");
}

#[test]
fn the_last_of_equally_good_matches_is_chosen() {
    let matches = vec![
        found("a", false, snapshot("s", "t", Some(0), None)),
        found("b", false, snapshot("s", "t", None, None)),
    ];
    assert_eq!(choose_session_match(&matches, None).unwrap().item.instance.id, "b");
}

#[test]
fn timelines_show_the_events_of_the_file() {
    let matches = vec![found("a", false, snapshot("s", "t", Some(1), Some("/f")))];
    let lines = vec![
        Ok("{\"payload\":{\"type\":\"user_message\",\"message\":\"hi\"}}".to_string()),
        Ok("x".to_string()),
    ];
    let timeline = get_session_timeline("s", None, Ok(matches), Ok(lines)).unwrap();
    assert_eq!(timeline.session.session_id, "s");
    assert_eq!(timeline.events.len(), 1);
    assert_eq!(timeline.events[0].body, "hi");
    assert_eq!(timeline.warnings.len(), 1);
}

#[test]
fn timelines_without_a_file_have_a_warning() {
    let none = vec![found("a", false, snapshot("s", "t", Some(1), None))];
    let timeline = get_session_timeline("s", None, Ok(none), Err("unused".to_string())).unwrap();
    assert!(timeline.events.is_empty());
    assert_eq!(timeline.warnings, vec!["No session file found. Only metadata is available."]);
    let mut gone = found("a", false, snapshot("s", "t", Some(1), Some("/f")));
    gone.has_file = false;
    let timeline = get_session_timeline("s", None, Ok(vec![gone]), Ok(Vec::new())).unwrap();
    assert_eq!(timeline.warnings, vec!["Session file is missing: /f"]);
}

#[test]
fn timelines_fail_where_nothing_is_found_or_read() {
    let empty = get_session_timeline("s", None, Ok(Vec::new()), Ok(Vec::new()));
    assert_eq!(empty, Err("Session not found: s".to_string()));
    let failed = get_session_timeline("s", None, Err("e".to_string()), Ok(Vec::new()));
    assert_eq!(failed, Err("e".to_string()));
    let matches = vec![found("a", false, snapshot("s", "t", Some(1), Some("/f")))];
    let unread = get_session_timeline("s", None, Ok(matches), Err("cannot open".to_string()));
    assert_eq!(unread, Err("cannot open".to_string()));
}

#[test]
fn favorites_are_shown_while_their_backups_exist() {
    let shown = |disk: &Vec<Vec<String>>| {
        let mut list = Vec::new();
        for (place, id) in [("i", "s"), ("j", "S"), ("i", "t")] {
            let mut m = found(place, false, snapshot(id, id, None, None));
            let dir = get_session_favorite_dir(Some("/h"), place, id);
            let exists = disk.contains(dir.as_ref().unwrap());
            m.favorited = is_session_favorited(&dir, exists);
            list.push(m);
        }
        let records = list_sessions_across_instances(Ok(list)).unwrap();
        let favorites = records.iter().filter(|r| r.is_favorite);
        favorites.map(|r| r.session_id.clone()).collect::<Vec<String>>()
    };
    let dir = |place: &str, id: &str| get_session_favorite_dir(Some("/h"), place, id).unwrap();
    assert!(shown(&Vec::new()).is_empty());
    assert_eq!(shown(&vec![dir("i", "s"), dir("j", "S")]), vec!["s"]);
    assert_eq!(shown(&vec![dir("j", "S")]), vec!["s"]);
    assert_eq!(shown(&vec![dir("i", "t")]), vec!["t"]);
}
