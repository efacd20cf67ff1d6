use keeplin_core::error::StorageError;
use keeplin_core::history::{plan_note_revert, plan_notebook_revert, state_at, EntityVersion};
use keeplin_core::models::{Note, Notebook};

fn ver(secs: i128, entity: Option<u32>) -> EntityVersion<u32> {
    EntityVersion {
        timestamp: secs * 1_000_000_000,
        device_id: "d".into(),
        entity,
    }
}

#[test]
fn state_at_picks_newest_at_or_before() {
    let versions = vec![ver(30, Some(3)), ver(20, Some(2)), ver(10, Some(1))];
    assert_eq!(state_at(&versions, 25_000_000_000).unwrap().entity, Some(2));
    assert_eq!(state_at(&versions, 30_000_000_000).unwrap().entity, Some(3));
    assert!(state_at(&versions, 5_000_000_000).is_none());
}

#[test]
fn a_deletion_is_a_state_too() {
    let versions = vec![ver(30, None), ver(10, Some(1))];
    assert_eq!(state_at(&versions, 31_000_000_000).unwrap().entity, None);
    assert!(state_at(&[] as &[EntityVersion<u32>], 0).is_none());
}

fn note_ver(ts: i128, entity: Option<Note>) -> EntityVersion<Note> {
    EntityVersion { timestamp: ts, device_id: "d".into(), entity }
}

#[test]
fn reverting_restores_the_content_then_and_revives_it() {
    let mut then = Note::new("t", "old body");
    then.deleted_at = Some(11);
    let id = then.id;
    let versions = vec![
        note_ver(30, Some(Note::new("t", "new body"))),
        note_ver(20, None),
        note_ver(10, Some(then)),
    ];
    let restored = plan_note_revert(versions, id, 15, 99).unwrap().unwrap();
    assert_eq!(restored.body, "old body");
    assert_eq!(restored.updated_at, 99);
    assert_eq!(restored.deleted_at, None);
}

#[test]
fn reverting_to_a_deleted_instant_deletes_and_before_any_version_is_not_found() {
    let versions = vec![note_ver(30, Some(Note::new("t", "b"))), note_ver(20, None)];
    assert!(plan_note_revert(versions, 5, 25, 99).unwrap().is_none());
    let versions = vec![note_ver(30, Some(Note::new("t", "b")))];
    match plan_note_revert(versions, 5, 25, 99) {
        Err(StorageError::NotFound(m)) => assert_eq!(m, "00000000-0000-0000-0000-000000000005"),
        other => panic!("unexpected {other:?}"),
    }
    let nb_versions = vec![EntityVersion { timestamp: 1, device_id: "d".into(), entity: Some(Notebook::new("n")) }];
    let nb = plan_notebook_revert(nb_versions, 7, 1, 50).unwrap().unwrap();
    assert_eq!((nb.title.as_str(), nb.updated_at), ("n", 50));
}
