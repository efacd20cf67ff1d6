use keeplin_core::error::StorageError;
use keeplin_core::upgrade::{
    format_migration, format_upgrade_plan, is_orphan_tmp, is_sync_conflict_copy, schema_upgrade_plan,
    schema_version_of, stored_format_version, FORMAT_VERSION, SCHEMA_VERSION,
};

#[test]
fn the_format_stamp_reads_as_a_trimmed_number_else_version_one() {
    assert_eq!(stored_format_version(None), 1);
    assert_eq!(stored_format_version(Some(" 3\n")), 3);
    assert_eq!(stored_format_version(Some("+4")), 4);
    assert_eq!(stored_format_version(Some("legacy")), 1);
    assert_eq!(stored_format_version(Some("")), 1);
}

#[test]
fn older_stores_step_through_every_later_format() {
    assert_eq!(format_upgrade_plan(1).unwrap(), vec![2, 3, 4, 5]);
    assert_eq!(format_upgrade_plan(FORMAT_VERSION).unwrap(), Vec::<u32>::new());
    for v in format_upgrade_plan(1).unwrap() {
        assert!(format_migration(v).is_ok());
    }
    match format_migration(6) {
        Err(StorageError::InvalidState(m)) => {
            assert_eq!(m, "no filesystem migration defined for format version 6")
        }
        other => panic!("unexpected {other:?}"),
    }
    assert!(format_migration(1).is_err());
}

#[test]
fn a_newer_format_or_schema_is_refused() {
    match format_upgrade_plan(FORMAT_VERSION + 1) {
        Err(StorageError::InvalidState(m)) => {
            assert!(m.contains("newer than this build"), "{m}");
            assert_eq!(
                m,
                "on-disk format version 6 is newer than this build supports (max 5); upgrade keeplin to open this store"
            );
        }
        other => panic!("unexpected {other:?}"),
    }
    match schema_upgrade_plan(SCHEMA_VERSION + 4) {
        Err(StorageError::InvalidState(m)) => assert_eq!(
            m,
            "database schema version 9 is newer than this build supports (max 5); upgrade keeplin to open it"
        ),
        other => panic!("unexpected {other:?}"),
    }
    assert_eq!(schema_upgrade_plan(0).unwrap(), vec![1, 2, 3, 4, 5]);
}

#[test]
fn the_schema_version_is_never_negative() {
    assert_eq!(schema_version_of(-3), 0);
    assert_eq!(schema_version_of(7), 7);
    assert_eq!(schema_version_of((1i64 << 32) | 2), 2);
}

#[test]
fn only_orphaned_temp_files_are_swept() {
    assert!(is_orphan_tmp("meta.tmp"));
    assert!(is_orphan_tmp("dev.tmp"));
    assert!(!is_orphan_tmp(".syncthing.abc.msgpack.tmp"));
    assert!(!is_orphan_tmp("junk"));
    assert!(!is_orphan_tmp("tmp"));
}

#[test]
fn syncthing_conflict_copies_are_recognised() {
    assert!(is_sync_conflict_copy("device_id.sync-conflict-20260702-120000-AAAAAAA"));
    assert!(is_sync_conflict_copy("junk.sync-conflict-20260702-120000-BBBBBBB.msgpack"));
    assert!(!is_sync_conflict_copy("log.dev.msgpack"));
    assert!(!is_sync_conflict_copy(".sync-conflict"));
}
