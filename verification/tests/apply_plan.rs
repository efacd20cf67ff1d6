use keeplin_core::apply_plan::{assoc_time, incoming_key, plan_apply, resource_time, ApplyAction, EntityKind};
use keeplin_core::models::{Change, Note, Resource};
use keeplin_core::version_vector::{bump, VersionVector};

fn vv_of(dev: &str) -> VersionVector {
    let mut vv = VersionVector::new();
    bump(&mut vv, dev);
    vv
}

#[test]
fn a_losing_change_is_skipped() {
    let note = Note::new("t", "b");
    assert!(matches!(plan_apply(Change::NoteUpdate { note }, false), ApplyAction::Skip));
    let del = Change::TagDelete { id: 3, deleted_at: 10, vv: VersionVector::new(), last_writer: "d".into() };
    assert!(matches!(plan_apply(del, false), ApplyAction::Skip));
}

#[test]
fn a_winning_record_is_written_and_a_winning_delete_is_a_tombstone() {
    let note = Note::new("t", "b");
    let id = note.id;
    match plan_apply(Change::NoteCreate { note }, true) {
        ApplyAction::WriteNote(n) => assert_eq!((n.id, n.title.as_str()), (id, "t")),
        other => panic!("unexpected {other:?}"),
    }
    let del = Change::NoteDelete { id: 7, deleted_at: 99, vv: vv_of("a"), last_writer: "a".into() };
    match plan_apply(del, true) {
        ApplyAction::Tombstone { kind, id, deleted_at, vv, last_writer } => {
            assert_eq!((kind, id, deleted_at, last_writer.as_str()), (EntityKind::Note, 7, 99, "a"));
            assert_eq!(vv.get("a"), Some(1));
        }
        other => panic!("unexpected {other:?}"),
    }
}

#[test]
fn tag_placements_are_stored_with_their_removal_time() {
    let add = Change::NoteTagAdd { note_id: 1, tag_id: 2, updated_at: 5, vv: VersionVector::new(), last_writer: String::new() };
    assert!(matches!(plan_apply(add, true), ApplyAction::Assoc { note_id: 1, tag_id: 2, updated_at: 5, removed_at: None, .. }));
    let rm = Change::NoteTagRemove { note_id: 1, tag_id: 2, updated_at: 6, vv: VersionVector::new(), last_writer: String::new() };
    assert!(matches!(plan_apply(rm, true), ApplyAction::Assoc { removed_at: Some(6), .. }));
}

#[test]
fn a_resource_is_written_with_its_bytes_or_none() {
    let res = Resource::new("r", "text/plain", "r.txt", 3);
    match plan_apply(Change::ResourceCreate { resource: res.clone(), data: Some(vec![1, 2, 3]) }, true) {
        ApplyAction::WriteResource { data, .. } => assert_eq!(data, vec![1, 2, 3]),
        other => panic!("unexpected {other:?}"),
    }
    match plan_apply(Change::ResourceCreate { resource: res, data: None }, true) {
        ApplyAction::WriteResource { data, .. } => assert!(data.is_empty()),
        other => panic!("unexpected {other:?}"),
    }
}

#[test]
fn the_incoming_key_takes_the_time_that_judges_each_kind() {
    let mut res = Resource::new("r", "text/plain", "r.txt", 3);
    res.created_at = 100;
    res.deleted_at = Some(250);
    res.last_writer = "w".into();
    let c = Change::ResourceCreate { resource: res, data: None };
    let (kind, _, second, ts, _, writer) = incoming_key(&c);
    assert_eq!((kind, second, ts, writer), (EntityKind::Resource, None, 250, "w"));
    let c = Change::NoteTagAdd { note_id: 1, tag_id: 2, updated_at: 5, vv: vv_of("x"), last_writer: "x".into() };
    let (kind, id, second, ts, vv, _) = incoming_key(&c);
    assert_eq!((kind, id, second, ts), (EntityKind::NoteTag, 1, Some(2), 5));
    assert_eq!(vv.get("x"), Some(1));
    let c = Change::NotebookDelete { id: 4, deleted_at: 77, vv: VersionVector::new(), last_writer: String::new() };
    assert_eq!(incoming_key(&c).3, 77);
    assert_eq!(resource_time(100, None), 100);
    assert_eq!(resource_time(100, Some(3)), 3);
    assert_eq!(assoc_time(None), 0);
    assert_eq!(assoc_time(Some(8)), 8);
}
