use keeplin_core::models::{new_id, Note, Notebook, Resource, Tag};

#[test]
fn a_new_note_lands_in_the_inbox_with_defaults() {
    let n = Note::new("t", "b");
    assert_eq!(n.notebook_id, 0);
    assert_eq!(n.title, "t");
    assert_eq!(n.body, "b");
    assert_eq!(n.created_at, n.updated_at);
    assert!(!n.is_pinned && !n.is_starred && !n.is_todo);
    assert_eq!(n.sort_key, 0);
    assert_eq!(n.effective_sort_key(), Note::DEFAULT_SORT_KEY);
    let mut m = Note::new("t", "b");
    m.sort_key = 5;
    assert_eq!(m.effective_sort_key(), 5);
}

#[test]
fn fresh_ids_are_version_four_uuids() {
    let id = new_id();
    assert_eq!((id >> 76) & 0xF, 4);
    assert_eq!((id >> 62) & 0x3, 2);
    assert_ne!(new_id(), id);
}

#[test]
fn other_entities_start_live_and_unaliased() {
    let nb = Notebook::new("nb");
    assert_eq!(nb.title, "nb");
    assert!(nb.alias.is_none() && nb.deleted_at.is_none());
    let t = Tag::new("tag");
    assert!(!t.system);
    let r = Resource::new("r", "text/plain", "r.txt", 3);
    assert_eq!(r.size, 3);
    assert_eq!(r.file_name, "r.txt");
}
