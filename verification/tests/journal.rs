use keeplin_core::collab::{is_note_change, relay_changes, strip_resource_blob};
use keeplin_core::journal::{log_entry_to_change, meta_from_data, row_to_change, LogData, LogEntry};
use keeplin_core::linking::change_affects_aliases;
use keeplin_core::models::{Change, Note, Notebook, Resource};
use keeplin_core::version_vector::{bump, VersionVector};

fn empty_data() -> LogData {
    LogData {
        note: None,
        notebook: None,
        tag: None,
        resource: None,
        deleted_at: None,
        updated_at: None,
        vv: None,
        last_writer: None,
        tag_id: None,
    }
}

fn entry(kind: &str, op: &str, data: LogData) -> LogEntry {
    LogEntry { timestamp: 42, entity_type: kind.into(), entity_id: 9, operation: op.into(), data }
}

#[test]
fn note_create_and_legacy_operation_names_carry_the_note() {
    for op in ["create", "note_create"] {
        let mut d = empty_data();
        d.note = Some(Note::new("t", "b"));
        match log_entry_to_change(entry("note", op, d)) {
            Some(Change::NoteCreate { note }) => assert_eq!(note.title, "t"),
            other => panic!("unexpected {other:?}"),
        }
    }
    assert!(log_entry_to_change(entry("note", "update", empty_data())).is_none());
}

#[test]
fn tombstones_fall_back_on_the_entry_time_and_empty_fields() {
    match log_entry_to_change(entry("notebook", "delete", empty_data())) {
        Some(Change::NotebookDelete { id, deleted_at, vv, last_writer }) => {
            assert_eq!(id, 9);
            assert_eq!(deleted_at, 42);
            assert_eq!(vv.len(), 0);
            assert_eq!(last_writer, "");
        }
        other => panic!("unexpected {other:?}"),
    }
    let mut d = empty_data();
    d.deleted_at = Some("2024-01-01T00:00:01Z".into());
    d.last_writer = Some("dev".into());
    match log_entry_to_change(entry("note", "note_delete", d)) {
        Some(Change::NoteDelete { deleted_at, last_writer, .. }) => {
            assert_eq!(deleted_at, 1_704_067_201_000_000_000);
            assert_eq!(last_writer, "dev");
        }
        other => panic!("unexpected {other:?}"),
    }
    let mut d = empty_data();
    d.deleted_at = Some("not a date".into());
    match log_entry_to_change(entry("resource", "delete", d)) {
        Some(Change::ResourceDelete { deleted_at, .. }) => assert_eq!(deleted_at, 42),
        other => panic!("unexpected {other:?}"),
    }
}

#[test]
fn tag_placements_need_a_tag_identifier() {
    let tag = uuid::Uuid::from_u128(77).to_string();
    let mut d = empty_data();
    d.tag_id = Some(tag.clone());
    d.updated_at = Some("1970-01-01T00:00:00.000005Z".into());
    match log_entry_to_change(entry("note_tag", "add", d)) {
        Some(Change::NoteTagAdd { note_id, tag_id, updated_at, .. }) => {
            assert_eq!((note_id, tag_id, updated_at), (9, 77, 5_000));
        }
        other => panic!("unexpected {other:?}"),
    }
    let mut d = empty_data();
    d.tag_id = Some(tag);
    assert!(matches!(log_entry_to_change(entry("note_tag", "remove", d)), Some(Change::NoteTagRemove { .. })));
    let mut d = empty_data();
    d.tag_id = Some("zz".into());
    assert!(log_entry_to_change(entry("note_tag", "add", d)).is_none());
    assert!(log_entry_to_change(entry("note_tag", "add", empty_data())).is_none());
}

#[test]
fn unknown_kinds_and_operations_record_nothing() {
    assert!(log_entry_to_change(entry("note", "frobnicate", empty_data())).is_none());
    assert!(log_entry_to_change(entry("widget", "create", empty_data())).is_none());
    assert!(log_entry_to_change(entry("notebook", "note_create", empty_data())).is_none());
}

#[test]
fn meta_fields_keep_a_given_version_vector() {
    let mut vv = VersionVector::new();
    bump(&mut vv, "dev");
    let (t, v, w) = meta_from_data(None, Some(vv), None, 3);
    assert_eq!(t, 3);
    assert_eq!(v.get("dev"), Some(1));
    assert_eq!(w, "");
}

#[test]
fn the_relay_carries_no_note_changes_and_no_resource_bytes() {
    let note = Note::new("n", "");
    let nb = Notebook::new("b");
    let res = Resource::new("r", "text/plain", "r.txt", 3);
    let changes = vec![
        Change::NoteCreate { note: note.clone() },
        Change::NotebookCreate { notebook: nb },
        Change::ResourceCreate { resource: res, data: Some(vec![1, 2, 3]) },
        Change::NoteDelete { id: 1, deleted_at: 0, vv: VersionVector::new(), last_writer: String::new() },
    ];
    assert!(is_note_change(&changes[0]));
    assert!(!is_note_change(&changes[1]));
    let relayed = relay_changes(changes);
    assert_eq!(relayed.len(), 2);
    assert!(matches!(relayed[0], Change::NotebookCreate { .. }));
    assert!(matches!(&relayed[1], Change::ResourceCreate { data: None, .. }));
    let kept = strip_resource_blob(Change::NoteUpdate { note });
    assert!(matches!(kept, Change::NoteUpdate { .. }));
}

#[test]
fn only_note_and_notebook_changes_touch_aliases() {
    assert!(change_affects_aliases(&Change::NotebookDelete {
        id: 1,
        deleted_at: 0,
        vv: VersionVector::new(),
        last_writer: String::new(),
    }));
    assert!(change_affects_aliases(&Change::NoteUpdate { note: Note::new("a", "") }));
    assert!(!change_affects_aliases(&Change::NoteTagAdd {
        note_id: 1,
        tag_id: 2,
        updated_at: 0,
        vv: VersionVector::new(),
        last_writer: String::new(),
    }));
}

#[test]
fn database_rows_need_an_identifier_and_carry_resource_bytes() {
    let id = uuid::Uuid::from_u128(5).to_string();
    assert!(row_to_change("notebook", "nope", "delete", 1, empty_data(), None).is_none());
    match row_to_change("tag", &id, "delete", 1, empty_data(), None) {
        Some(Change::TagDelete { id, deleted_at, .. }) => assert_eq!((id, deleted_at), (5, 1)),
        other => panic!("unexpected {other:?}"),
    }
    let mut d = empty_data();
    d.resource = Some(Resource::new("r", "text/plain", "r.txt", 3));
    match row_to_change("resource", &id, "create", 1, d, Some("AQID")) {
        Some(Change::ResourceCreate { data, .. }) => assert_eq!(data, Some(vec![1, 2, 3])),
        other => panic!("unexpected {other:?}"),
    }
    let mut d = empty_data();
    d.resource = Some(Resource::new("r", "text/plain", "r.txt", 3));
    assert!(matches!(
        row_to_change("resource", &id, "create", 1, d, Some("%%")),
        Some(Change::ResourceCreate { data: None, .. })
    ));
    let mut d = empty_data();
    d.note = Some(Note::new("t", ""));
    assert!(row_to_change("note", &id, "note_create", 1, d, None).is_none());
}
