use keeplin_core::conflicts::{find_alias_conflicts, group_note_conflicts, text_less};
use keeplin_core::error::StorageError;
use keeplin_core::interop::{resources_named, resources_of_type};
use keeplin_core::linking::{
    add_manual_link, backlinks_among, ensure_notebook_alias_free, AliasIndex, refresh, remove_link, resolve_bookmark_seg, resolve_ref, set_note_alias,
    set_notebook_alias,
};
use keeplin_core::links::{LinkSource, NoteLink};
use keeplin_core::models::{Note, Notebook, Resource};

fn note_in(nb: u128, alias: Option<&str>, body: &str) -> Note {
    let mut n = Note::new("t", body);
    n.notebook_id = nb;
    n.alias = alias.map(|a| a.to_string());
    refresh(&mut n);
    n
}

#[test]
fn resolve_ref_by_uuid_segment_and_bookmark_alias() {
    let target = note_in(7, Some("note3"), "[Anchor](###) body");
    let src = note_in(7, None, "go [here](#note3)");
    let notes = vec![target.clone(), src];
    let raw = format!("#whatever#{}#Anchor", uuid::Uuid::from_u128(target.id));
    let r = resolve_ref(&raw, &notes, &[]).unwrap();
    assert_eq!(r.note_id, target.id);
    assert_eq!(r.bookmark_number, Some(1));
}

#[test]
fn resolve_ref_two_segment_note_bookmark_shorthand() {
    let target = note_in(7, Some("note3"), "[Anchor](###) body");
    let notes = vec![target.clone()];
    let r = resolve_ref("#note3#Anchor", &notes, &[]).unwrap();
    assert_eq!(r.note_id, target.id);
    assert_eq!(r.bookmark_number, Some(1));
    let r = resolve_ref("#note3#1", &notes, &[]).unwrap();
    assert_eq!(r.bookmark_number, Some(1));
    let r = resolve_ref("#note3#2", &notes, &[]).unwrap();
    assert_eq!(r.note_id, target.id);
    assert_eq!(r.bookmark_number, None);
    assert!(resolve_ref("#nothing", &notes, &[]).is_none());
}

#[test]
fn resolve_ref_two_segments_prefer_a_note_in_the_notebook() {
    let mut nb = Notebook::new("lib");
    nb.alias = Some("lib1".to_string());
    let note = note_in(nb.id, Some("nA"), "");
    let r = resolve_ref("#lib1#nA", &[note.clone()], &[nb]).unwrap();
    assert_eq!(r.note_id, note.id);
    assert_eq!(r.bookmark_number, None);
}

#[test]
fn resolve_ref_never_names_an_inbox_note() {
    let inbox = note_in(0, None, "");
    let raw = format!("#{}", uuid::Uuid::from_u128(inbox.id));
    assert!(resolve_ref(&raw, &[inbox], &[]).is_none());
}

#[test]
fn bookmark_segments_name_numbers_then_aliases() {
    let n = note_in(7, None, "[One](###) [Two](### \"second\")");
    let notes = vec![n.clone()];
    assert_eq!(resolve_bookmark_seg("2", n.id, &notes), Some(2));
    assert_eq!(resolve_bookmark_seg("3", n.id, &notes), None);
    assert_eq!(resolve_bookmark_seg("second", n.id, &notes), Some(2));
    assert_eq!(resolve_bookmark_seg("One", n.id, &notes), Some(1));
    assert_eq!(resolve_bookmark_seg("One", n.id.wrapping_add(1), &notes), None);
}

#[test]
fn alias_conflicts_list_duplicates_only() {
    let a = note_in(7, Some("dup"), "");
    let b = note_in(7, Some("dup"), "");
    let c = note_in(7, Some("unique"), "");
    let found = find_alias_conflicts(vec![a.clone(), b.clone(), c], vec![]);
    assert_eq!(found.notes.len(), 1);
    assert_eq!(found.notes[0].alias, "dup");
    assert_eq!(found.notes[0].entities.len(), 2);
    let ids: Vec<u128> = found.notes[0].entities.iter().map(|n| n.id).collect();
    assert_eq!(ids, vec![a.id.min(b.id), a.id.max(b.id)]);
    assert!(found.notebooks.is_empty());
}

#[test]
fn alias_conflicts_are_scoped_per_notebook_and_skip_the_inbox() {
    let notes = vec![
        note_in(1, Some("x"), ""),
        note_in(2, Some("x"), ""),
        note_in(0, Some("x"), ""),
        note_in(0, Some("x"), ""),
        note_in(2, Some("b"), ""),
        note_in(2, Some("b"), ""),
        note_in(1, Some("a"), ""),
        note_in(1, Some("a"), ""),
        note_in(1, Some("a"), ""),
    ];
    let conflicts = group_note_conflicts(notes);
    let keys: Vec<(&str, u128, usize)> = conflicts
        .iter()
        .map(|c| (c.alias.as_str(), c.entities[0].notebook_id, c.entities.len()))
        .collect();
    assert_eq!(keys, vec![("a", 1, 3), ("b", 2, 2)]);
}

#[test]
fn notebook_alias_conflicts_are_global() {
    let mut n1 = Notebook::new("one");
    n1.alias = Some("zeta".into());
    let mut n2 = Notebook::new("two");
    n2.alias = Some("zeta".into());
    let mut n3 = Notebook::new("three");
    n3.alias = Some("alpha".into());
    let mut n4 = Notebook::new("four");
    n4.alias = Some("alpha".into());
    let found = find_alias_conflicts(vec![], vec![n1, n2, n3, n4, Notebook::new("bare")]);
    let aliases: Vec<&str> = found.notebooks.iter().map(|c| c.alias.as_str()).collect();
    assert_eq!(aliases, vec!["alpha", "zeta"]);
}

#[test]
fn text_order_is_that_of_str() {
    for (a, b) in [("a", "b"), ("a", "ab"), ("", "a"), ("ab", "ab"), ("b", "ab"), ("é", "z"), ("Z", "a")] {
        assert_eq!(text_less(a, b), a < b, "{a} < {b}");
    }
}

#[test]
fn backlinks_are_the_notes_that_link_to_the_target_in_order() {
    let link = |t: Option<u128>| NoteLink { source: LinkSource::Manual, raw: "#x".into(), target_note_id: t };
    let mut a = note_in(1, None, "");
    a.links = vec![link(None), link(Some(42))];
    let mut b = note_in(1, None, "");
    b.links = vec![link(Some(7))];
    let mut c = note_in(2, None, "");
    c.links = vec![link(Some(42))];
    let found = backlinks_among(vec![a.clone(), b, c.clone()], 42);
    let ids: Vec<u128> = found.iter().map(|n| n.id).collect();
    assert_eq!(ids, vec![a.id, c.id]);
    assert!(backlinks_among(vec![], 42).is_empty());
}

#[test]
fn alias_and_link_edits_refuse_deleted_entities() {
    let mut note = note_in(7, None, "");
    note.deleted_at = Some(5);
    let before_links = note.links.len();
    for err in [
        set_note_alias(&mut note, Some("ghost".into())).unwrap_err(),
        add_manual_link(&mut note, "#target").unwrap_err(),
        remove_link(&mut note, 0).unwrap_err(),
    ] {
        assert!(matches!(err, StorageError::NotFound(_)), "got: {err:?}");
    }
    assert_eq!(note.alias, None);
    assert_eq!(note.links.len(), before_links);
    let mut nb = Notebook::new("nb");
    nb.deleted_at = Some(1);
    assert!(matches!(set_notebook_alias(&mut nb, Some("ghost".into())), Err(StorageError::NotFound(_))));
}

#[test]
fn manual_links_are_added_and_removed_by_index() {
    let mut note = note_in(7, None, "no links here");
    add_manual_link(&mut note, "#somealias").unwrap();
    assert_eq!(note.links.len(), 1);
    assert_eq!(note.links[0].source, LinkSource::Manual);
    assert_eq!(note.links[0].target_note_id, None);
    match add_manual_link(&mut note, "not a ref") {
        Err(StorageError::InvalidState(m)) => assert_eq!(m, "invalid link reference 'not a ref'"),
        other => panic!("unexpected {other:?}"),
    }
    match remove_link(&mut note, 3) {
        Err(StorageError::NotFound(m)) => {
            assert_eq!(m, format!("link 3 in note {}", uuid::Uuid::from_u128(note.id)))
        }
        other => panic!("unexpected {other:?}"),
    }
    remove_link(&mut note, 0).unwrap();
    assert!(note.links.is_empty());
}

#[test]
fn inbox_notes_cannot_take_an_alias() {
    let mut inbox = note_in(0, None, "");
    match set_note_alias(&mut inbox, Some("x".into())) {
        Err(StorageError::InvalidInput(m)) => assert_eq!(m, "an Inbox note cannot carry an alias"),
        other => panic!("unexpected {other:?}"),
    }
    set_note_alias(&mut inbox, None).unwrap();
    let mut n = note_in(3, None, "");
    set_note_alias(&mut n, Some("x".into())).unwrap();
    assert_eq!(n.alias.as_deref(), Some("x"));
}

#[test]
fn a_notebook_alias_in_use_elsewhere_is_refused() {
    let mut a = Notebook::new("a");
    a.alias = Some("lib".into());
    let mut idx = AliasIndex::new();
    idx.upsert_notebook(&a);
    let mut b = Notebook::new("b");
    b.alias = Some("lib".into());
    match ensure_notebook_alias_free(&idx, &b) {
        Err(StorageError::Conflict(m)) => assert_eq!(m, "notebook alias 'lib' is already in use"),
        other => panic!("unexpected {other:?}"),
    }
    assert!(ensure_notebook_alias_free(&idx, &a).is_ok());
    b.alias = None;
    assert!(ensure_notebook_alias_free(&idx, &b).is_ok());
}

#[test]
fn stored_resources_are_picked_by_type_and_by_canonical_name() {
    let metas = vec![
        Resource::new("a", "text/vcard", "u1.vcf", 1),
        Resource::new("b", "text/calendar", "u1.ics", 1),
        Resource::new("c", "text/vcard", "other.vcf", 1),
    ];
    let cards: Vec<String> = resources_of_type(metas.clone(), "text/vcard").into_iter().map(|r| r.title).collect();
    assert_eq!(cards, vec!["a", "c"]);
    let named: Vec<String> = resources_named(metas, "u1", "vcf").into_iter().map(|r| r.title).collect();
    assert_eq!(named, vec!["a"]);
}
