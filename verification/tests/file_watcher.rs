use fs_text_search_mcp::file::file_watcher::{
    event_loop, event_operations, normalize_notify_path, process_events, process_paths, EventKind,
    ModifyKind, RemoveKind, RenameMode, WatchEvent, WatchReaction, WatchSignal, DEBOUNCE_SECONDS,
    POLL_MILLIS,
};
use fs_text_search_mcp::search::file::{FileOperation, WatchError};

fn event(kind: EventKind, paths: &[&str]) -> WatchEvent {
    WatchEvent { kind, paths: paths.iter().map(|p| p.to_string()).collect(), second_is_file: false }
}

fn show(operations: &[FileOperation]) -> Vec<String> {
    operations.iter().map(|o| format!("{:?}", o)).collect()
}

#[test]
fn the_windows_of_the_watcher() {
    assert_eq!(DEBOUNCE_SECONDS, 1);
    assert_eq!(POLL_MILLIS, 100);
}

#[test]
fn a_leading_current_directory_is_removed() {
    assert_eq!(normalize_notify_path("./a/b.txt"), "a/b.txt");
    assert_eq!(normalize_notify_path("./a"), "a");
    assert_eq!(normalize_notify_path("././a"), "a");
    assert_eq!(normalize_notify_path(".//a"), "a");
    assert_eq!(normalize_notify_path(".///.//a/b"), "a/b");
    assert_eq!(normalize_notify_path("."), "");
    assert_eq!(normalize_notify_path("./"), "");
    assert_eq!(normalize_notify_path("./."), "");
}

#[test]
fn other_paths_stay_as_they_are() {
    assert_eq!(normalize_notify_path(""), "");
    assert_eq!(normalize_notify_path("a/b.txt"), "a/b.txt");
    assert_eq!(normalize_notify_path("/abs/a.txt"), "/abs/a.txt");
    assert_eq!(normalize_notify_path(".hidden"), ".hidden");
    assert_eq!(normalize_notify_path("./.hidden"), ".hidden");
    assert_eq!(normalize_notify_path(".."), "..");
    assert_eq!(normalize_notify_path("../a"), "../a");
    assert_eq!(normalize_notify_path("./../a"), "../a");
    assert_eq!(normalize_notify_path("a/./b"), "a/./b");
    assert_eq!(normalize_notify_path("./ä/ö.txt"), "ä/ö.txt");
}

#[test]
fn a_creation_gives_one_operation_for_each_path() {
    let operations = event_operations(&event(EventKind::Create, &["./a.txt", "b.txt"])).unwrap();
    assert_eq!(show(&operations), vec!["FileCreated(\"a.txt\")", "FileCreated(\"b.txt\")"]);
    let operations = event_operations(&event(EventKind::Create, &[])).unwrap();
    assert!(operations.is_empty());
}

#[test]
fn a_change_of_data_is_a_modification() {
    let operations =
        event_operations(&event(EventKind::Modify(ModifyKind::Data), &["./a.txt"])).unwrap();
    assert_eq!(show(&operations), vec!["FileModified(\"a.txt\")"]);
}

#[test]
fn a_rename_with_both_paths_is_of_a_file_or_of_a_directory() {
    let mut rename = event(
        EventKind::Modify(ModifyKind::Name(RenameMode::Both)),
        &["./old.txt", "./new.txt", "extra"],
    );
    rename.second_is_file = true;
    let operations = event_operations(&rename).unwrap();
    assert_eq!(
        show(&operations),
        vec!["FileRenamed { old_path: \"old.txt\", new_path: \"new.txt\" }"]
    );
    rename.second_is_file = false;
    let operations = event_operations(&rename).unwrap();
    assert_eq!(
        show(&operations),
        vec!["DirectoryRenamed { old_path: \"old.txt\", new_path: \"new.txt\" }"]
    );
}

#[test]
fn a_rename_that_lacks_a_path_is_malformed() {
    let kind = EventKind::Modify(ModifyKind::Name(RenameMode::Both));
    assert!(matches!(event_operations(&event(kind, &["only.txt"])), Err(WatchError::MalformedEvent)));
    assert!(matches!(event_operations(&event(kind, &[])), Err(WatchError::MalformedEvent)));
}

#[test]
fn removals_tell_files_from_folders() {
    let operations =
        event_operations(&event(EventKind::Remove(RemoveKind::File), &["./a.txt", "b.txt"]))
            .unwrap();
    assert_eq!(show(&operations), vec!["FileDeleted(\"a.txt\")", "FileDeleted(\"b.txt\")"]);
    let operations =
        event_operations(&event(EventKind::Remove(RemoveKind::Folder), &["./dir"])).unwrap();
    assert_eq!(show(&operations), vec!["DirectoryDeleted(\"dir\")"]);
}

#[test]
fn every_other_event_is_ignored() {
    let kinds = [
        EventKind::Any,
        EventKind::Access,
        EventKind::Other,
        EventKind::Modify(ModifyKind::Any),
        EventKind::Modify(ModifyKind::Metadata),
        EventKind::Modify(ModifyKind::Other),
        EventKind::Modify(ModifyKind::Name(RenameMode::Any)),
        EventKind::Modify(ModifyKind::Name(RenameMode::To)),
        EventKind::Modify(ModifyKind::Name(RenameMode::From)),
        EventKind::Modify(ModifyKind::Name(RenameMode::Other)),
        EventKind::Remove(RemoveKind::Any),
        EventKind::Remove(RemoveKind::Other),
    ];
    for kind in kinds {
        let operations = event_operations(&event(kind, &["a.txt", "b.txt"])).unwrap();
        assert!(operations.is_empty());
    }
}

#[test]
fn events_give_their_operations_in_order() {
    let mut rename =
        event(EventKind::Modify(ModifyKind::Name(RenameMode::Both)), &["./d1", "./d2"]);
    rename.second_is_file = false;
    let events = vec![
        event(EventKind::Create, &["./a.txt", "./b.txt"]),
        event(EventKind::Access, &["./a.txt"]),
        rename,
        event(EventKind::Remove(RemoveKind::File), &["./c.txt"]),
    ];
    let (operations, errors) = process_events(events);
    assert_eq!(
        show(&operations),
        vec![
            "FileCreated(\"a.txt\")",
            "FileCreated(\"b.txt\")",
            "DirectoryRenamed { old_path: \"d1\", new_path: \"d2\" }",
            "FileDeleted(\"c.txt\")",
        ]
    );
    assert!(errors.is_empty());
    let (operations, errors) = process_events(Vec::new());
    assert!(operations.is_empty());
    assert!(errors.is_empty());
}

#[test]
fn a_malformed_event_is_reported_and_the_others_are_kept() {
    let events = vec![
        event(EventKind::Create, &["./a.txt"]),
        event(EventKind::Modify(ModifyKind::Name(RenameMode::Both)), &["./lonely"]),
        event(EventKind::Create, &["./b.txt"]),
        event(EventKind::Modify(ModifyKind::Name(RenameMode::Both)), &[]),
    ];
    let (operations, errors) = process_events(events);
    assert_eq!(show(&operations), vec!["FileCreated(\"a.txt\")", "FileCreated(\"b.txt\")"]);
    assert_eq!(errors.len(), 2);
    assert!(matches!(errors[0], WatchError::MalformedEvent));
    assert!(matches!(errors[1], WatchError::MalformedEvent));
}

#[test]
fn a_creation_beside_a_rename_without_its_new_side_is_still_delivered() {
    let events = vec![
        event(EventKind::Create, &["a.txt"]),
        event(EventKind::Modify(ModifyKind::Name(RenameMode::Both)), &["old.txt"]),
    ];
    let (operations, errors) = process_events(events);
    assert_eq!(show(&operations), vec!["FileCreated(\"a.txt\")"]);
    assert_eq!(errors.len(), 1);
    assert!(matches!(errors[0], WatchError::MalformedEvent));
}

fn shout(path: &String) -> FileOperation {
    FileOperation::FileModified(path.to_uppercase())
}

#[test]
fn process_paths_applies_the_function_to_every_path() {
    let paths = vec!["a".to_string(), "b".to_string(), "c".to_string()];
    let operations = process_paths(&paths, shout);
    assert_eq!(
        show(&operations),
        vec!["FileModified(\"A\")", "FileModified(\"B\")", "FileModified(\"C\")"]
    );
    assert!(process_paths(&Vec::new(), shout).is_empty());
}

#[test]
fn the_loop_stops_when_asked_or_when_the_channel_is_closed() {
    assert!(matches!(event_loop(WatchSignal::StopRequested), WatchReaction::Stop));
    assert!(matches!(event_loop(WatchSignal::Disconnected), WatchReaction::Stop));
    assert!(matches!(event_loop(WatchSignal::TimedOut), WatchReaction::Idle));
}

#[test]
fn the_loop_delivers_the_operations_of_events() {
    let events = vec![event(EventKind::Create, &["./a.txt"])];
    match event_loop(WatchSignal::Events(events)) {
        WatchReaction::Handle { deliver, report } => {
            assert_eq!(show(&deliver), vec!["FileCreated(\"a.txt\")"]);
            assert!(report.is_empty());
        },
        _ => panic!("events are delivered"),
    }
    match event_loop(WatchSignal::Events(Vec::new())) {
        WatchReaction::Handle { deliver, report } => {
            assert!(deliver.is_empty());
            assert!(report.is_empty());
        },
        _ => panic!("events are delivered"),
    }
}

#[test]
fn the_loop_reports_a_malformed_event_and_goes_on() {
    let events = vec![
        event(EventKind::Create, &["./a.txt"]),
        event(EventKind::Modify(ModifyKind::Name(RenameMode::Both)), &[]),
    ];
    match event_loop(WatchSignal::Events(events)) {
        WatchReaction::Handle { deliver, report } => {
            assert_eq!(show(&deliver), vec!["FileCreated(\"a.txt\")"]);
            assert_eq!(report.len(), 1);
            assert!(matches!(report[0], WatchError::MalformedEvent));
        },
        _ => panic!("a malformed event is reported"),
    }
}

#[test]
fn the_loop_reports_the_errors_of_the_service() {
    let messages = vec!["first".to_string(), "second".to_string()];
    match event_loop(WatchSignal::Errors(messages)) {
        WatchReaction::Handle { deliver, report: errors } => {
            assert!(deliver.is_empty());
            assert_eq!(errors.len(), 2);
            assert!(matches!(&errors[0], WatchError::Backend(text) if text == "first"));
            assert!(matches!(&errors[1], WatchError::Backend(text) if text == "second"));
        },
        _ => panic!("errors are reported"),
    }
}
