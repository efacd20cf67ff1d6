use keeplin_core::error::StorageError;
use keeplin_core::linking::{apply_link_targets, plan_links, refresh, AliasIndex};
use keeplin_core::links::{LinkSource, NoteLink};
use keeplin_core::models::{Note, Notebook};

fn note_in(nb: u128, alias: Option<&str>, body: &str) -> Note {
    let mut n = Note::new("t", body);
    n.notebook_id = nb;
    n.alias = alias.map(|a| a.to_string());
    n
}

#[test]
fn aliases_resolve_by_notebook_then_uniquely_then_by_source() {
    let mut idx = AliasIndex::new();
    let a = note_in(10, Some("plan"), "");
    let b = note_in(20, Some("plan"), "");
    let c = note_in(20, Some("solo"), "");
    idx.upsert_note(&a);
    idx.upsert_note(&b);
    idx.upsert_note(&c);
    let mut nb = Notebook::new("work");
    nb.id = 20;
    nb.alias = Some("work".into());
    idx.upsert_notebook(&nb);

    assert_eq!(idx.resolve_note_seg("solo", None, None), Some(c.id));
    assert_eq!(idx.resolve_note_seg("plan", Some("work"), None), Some(b.id));
    assert_eq!(idx.resolve_note_seg("plan", None, Some(10)), Some(a.id));
    assert_eq!(idx.resolve_note_seg("plan", None, None), Some(a.id.min(b.id)));
    assert_eq!(idx.resolve_note_seg("nothing", None, None), None);
    assert_eq!(idx.resolve_note_seg("plan", Some("nowhere"), None), None);
    assert_eq!(idx.resolve_notebook_seg("work"), Some(20));

    assert_eq!(idx.resolve_target("#work#plan", None), Some((b.id, None)));
    assert_eq!(idx.resolve_target("#solo#mark", None), Some((c.id, Some("mark".to_string()))));
    assert_eq!(idx.resolve_target("#work#plan#3", None), Some((b.id, Some("3".to_string()))));
    assert_eq!(idx.resolve_target("#a##b", None), None);
    assert_eq!(idx.resolve_target("plan", None), None);
}

#[test]
fn the_index_tracks_deletes_renames_and_the_inbox() {
    let mut idx = AliasIndex::new();
    let mut a = note_in(10, Some("x"), "");
    idx.upsert_note(&a);
    assert!(idx.note_alias_taken("x", 999, 10));
    assert!(!idx.note_alias_taken("x", a.id, 10));
    assert!(!idx.note_alias_taken("x", 999, 11));
    a.alias = Some("y".into());
    idx.upsert_note(&a);
    assert!(!idx.note_alias_taken("x", 999, 10));
    assert!(idx.note_alias_taken("y", 999, 10));
    a.deleted_at = Some(1);
    idx.upsert_note(&a);
    assert!(!idx.note_alias_taken("y", 999, 10));
    let inbox = note_in(0, Some("z"), "");
    idx.upsert_note(&inbox);
    assert!(!idx.note_alias_taken("z", 999, 0));
    let mut nb = Notebook::new("n");
    nb.alias = Some("books".into());
    idx.upsert_notebook(&nb);
    assert!(idx.notebook_alias_taken("books", 1));
    idx.remove_notebook(nb.id);
    assert!(!idx.notebook_alias_taken("books", 1));
}

#[test]
fn refresh_rederives_bookmarks_and_content_links() {
    let mut n = note_in(10, None, "[B](###) then [x](#note) and [y](### \"Al\")");
    n.links.push(NoteLink {
        source: LinkSource::Manual,
        raw: "#kept".into(),
        target_note_id: None,
    });
    n.links.push(NoteLink {
        source: LinkSource::Content,
        raw: "#stale".into(),
        target_note_id: None,
    });
    refresh(&mut n);
    assert_eq!(n.bookmarks.len(), 2);
    assert_eq!(n.bookmarks[0].number, 1);
    assert_eq!(n.bookmarks[0].alias, "B");
    assert_eq!(n.bookmarks[1].alias, "Al");
    let raws: Vec<&str> = n.links.iter().map(|l| l.raw.as_str()).collect();
    assert_eq!(raws, vec!["#kept", "#note"]);
}

#[test]
fn preparing_links_refuses_a_taken_alias_and_clears_inbox_notes() {
    let mut idx = AliasIndex::new();
    let other = note_in(10, Some("dup"), "");
    idx.upsert_note(&other);
    let mut mine = note_in(10, Some("dup"), "");
    match plan_links(&mut mine, &idx) {
        Err(StorageError::Conflict(m)) => assert_eq!(m, "note alias 'dup' is already in use"),
        other => panic!("expected a conflict, got {other:?}"),
    }
    let mut inbox = note_in(0, Some("a"), "[x](#dup)");
    assert!(matches!(plan_links(&mut inbox, &idx), Ok(None)));
    assert!(inbox.alias.is_none());
    assert!(inbox.links[0].target_note_id.is_none());

    let mut linker = note_in(10, None, "[x](#dup) [y](#missing)");
    let plan = plan_links(&mut linker, &idx).unwrap().unwrap();
    assert_eq!(plan.targets, vec![Some(other.id), None]);
    assert!(plan.unverified.is_empty());
    apply_link_targets(&mut linker, &plan.targets, &vec![]);
    assert_eq!(linker.links[0].target_note_id, Some(other.id));
    apply_link_targets(&mut linker, &plan.targets, &vec![other.id]);
    assert_eq!(linker.links[0].target_note_id, None);
}

#[test]
fn only_a_live_inbox_note_is_an_inbox_target() {
    let mut n = keeplin_core::models::Note::new("t", "");
    n.notebook_id = 0;
    assert!(keeplin_core::linking::is_live_inbox_target(&n));
    n.deleted_at = Some(1);
    assert!(!keeplin_core::linking::is_live_inbox_target(&n));
    n.deleted_at = None;
    n.notebook_id = 7;
    assert!(!keeplin_core::linking::is_live_inbox_target(&n));
}
