use keeplin_core::ordering::{
    check_pinnable, check_reorder, is_inbox, lowest_free_pinned_key, next_normal_key,
    placement_for_new_note, resequence_keys, NotebookSortProfile, Placement, PIN_MAX,
};

#[test]
fn lowest_free_pinned_key_fills_gaps_and_detects_full() {
    assert_eq!(lowest_free_pinned_key(&[]), Some(1));
    assert_eq!(lowest_free_pinned_key(&[1, 2, 3]), Some(4));
    assert_eq!(lowest_free_pinned_key(&[1, 3]), Some(2));
    assert_eq!(lowest_free_pinned_key(&[2, 3]), Some(1));
    let full: Vec<u32> = (1..=PIN_MAX).collect();
    assert_eq!(lowest_free_pinned_key(&full), None);
    let almost: Vec<u32> = (1..PIN_MAX).collect();
    assert_eq!(lowest_free_pinned_key(&almost), Some(PIN_MAX));
}

#[test]
fn the_nil_id_is_the_inbox() {
    assert!(is_inbox(0));
    assert!(!is_inbox(1));
}

#[test]
fn a_profile_splits_pinned_and_normal_keys() {
    let p = NotebookSortProfile::from_effective_keys(&[1000, 3, 2000, 1]);
    assert_eq!(p.pinned_keys, vec![1, 3]);
    assert_eq!(p.min_key, Some(1));
    assert_eq!(p.max_normal_key, Some(2000));
    assert_eq!(next_normal_key(&p), 2001);
    let empty = NotebookSortProfile::from_effective_keys(&[]);
    assert_eq!(next_normal_key(&empty), 1000);
}

#[test]
fn placement_and_resequencing_follow_the_bands() {
    let p = NotebookSortProfile::from_effective_keys(&[1000, 2000]);
    assert_eq!(placement_for_new_note(7, &p), Placement::At(2001));
    assert_eq!(placement_for_new_note(0, &p), Placement::At(999));
    let crowded = NotebookSortProfile::from_effective_keys(&[1, 1000]);
    assert_eq!(placement_for_new_note(0, &crowded), Placement::AfterResequence(999));
    let keys = resequence_keys(&[1000, 2000, 5]);
    assert_eq!(keys, vec![None, None, Some(3000)]);
    assert!(check_pinnable(0, false).is_err());
    assert!(check_reorder(7, false, 5).is_err());
    assert!(check_reorder(7, true, 5).is_ok());
}

#[test]
fn reordering_to_the_same_key_writes_nothing() {
    let mut note = keeplin_core::models::Note::new("t", "");
    note.notebook_id = 0;
    note.sort_key = 5;
    let (m, write) = keeplin_core::ordering::plan_reorder(note.clone(), 5).unwrap();
    assert!(!write);
    assert_eq!(m.sort_key, 5);
    let (m, write) = keeplin_core::ordering::plan_reorder(note.clone(), 9).unwrap();
    assert!(write);
    assert_eq!(m.sort_key, 9);
    match keeplin_core::ordering::plan_reorder(note, 0) {
        Err(keeplin_core::error::StorageError::InvalidInput(m)) => {
            assert_eq!(m, "sort_key 0 is outside the note's band >= 1 (Inbox)")
        }
        other => panic!("unexpected {other:?}"),
    }
}
