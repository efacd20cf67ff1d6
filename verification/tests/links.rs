use keeplin_core::links::{
    parse_bookmarks, parse_content_links, parse_link_ref, BookmarkRef, DerivedBookmark,
    LinkSource, NoteLink, Reference,
};

#[test]
fn parses_one_two_three_segments() {
    let one = parse_link_ref("#note3").unwrap();
    assert_eq!(one.note, Reference::Alias("note3".into()));
    assert!(one.notebook.is_none() && one.bookmark.is_none());

    let two = parse_link_ref("#notebook1#note3").unwrap();
    assert_eq!(two.notebook, Some(Reference::Alias("notebook1".into())));
    assert_eq!(two.note, Reference::Alias("note3".into()));
    assert!(two.bookmark.is_none());

    let three = parse_link_ref("#notebook1#note3#anchor5").unwrap();
    assert_eq!(three.bookmark, Some(BookmarkRef::Alias("anchor5".into())));

    let numbered = parse_link_ref("#notebook1#note3#5").unwrap();
    assert_eq!(numbered.bookmark, Some(BookmarkRef::Number(5)));
}

#[test]
fn parses_uuid_segments_as_ids() {
    let id = 0x6f2a5b1c_9d5c_4c3a_8f21_3b1a2c4d5e6fu128;
    let nb = 0x11111111_2222_4333_8444_555555555555u128;
    let t = parse_link_ref(
        "#11111111-2222-4333-8444-555555555555#6f2a5b1c-9d5c-4c3a-8f21-3b1a2c4d5e6f",
    )
    .unwrap();
    assert_eq!(t.notebook, Some(Reference::Id(nb)));
    assert_eq!(t.note, Reference::Id(id));
}

#[test]
fn rejects_malformed_refs() {
    assert!(parse_link_ref("note3").is_none());
    assert!(parse_link_ref("#").is_none());
    assert!(parse_link_ref("#a##b").is_none());
    assert!(parse_link_ref("#a#b#c#d").is_none());
}

#[test]
fn bookmark_ref_zero_is_alias() {
    assert_eq!(BookmarkRef::parse("0"), BookmarkRef::Alias("0".into()));
    assert_eq!(BookmarkRef::parse("1"), BookmarkRef::Number(1));
}

#[test]
fn extracts_bookmarks_with_and_without_alias_in_order() {
    let body =
        "Intro [Bookmark1](###) mid\n### not a bookmark (heading)\n[Other](### \"Alias\") end";
    let marks = parse_bookmarks(body);
    assert_eq!(
        marks,
        vec![
            DerivedBookmark {
                text: "Bookmark1".to_string(),
                alias: None,
            },
            DerivedBookmark {
                text: "Other".to_string(),
                alias: Some("Alias".to_string()),
            },
        ]
    );
}

#[test]
fn extracts_content_links_excluding_bookmarks() {
    let body =
        "see [a](#note3) and [b](#notebook1#note3#5), a bookmark [c](###), but not [d](http://x) or [e](#)";
    let links = parse_content_links(body);
    assert_eq!(
        links,
        vec!["#note3".to_string(), "#notebook1#note3#5".to_string()]
    );
}

#[test]
fn a_link_is_kept_only_for_a_well_formed_reference() {
    let l = NoteLink::from_raw("#a#b", LinkSource::Manual).unwrap();
    assert_eq!(l.raw, "#a#b");
    assert_eq!(l.source, LinkSource::Manual);
    assert!(l.target_note_id.is_none());
    assert!(NoteLink::from_raw("a#b", LinkSource::Content).is_none());
    let t = l.target().unwrap();
    assert_eq!(t.notebook, Some(Reference::Alias("a".into())));
    assert_eq!(t.note, Reference::Alias("b".into()));
}

#[test]
fn bookmark_segments_are_numbers_only_when_all_digits() {
    assert_eq!(BookmarkRef::parse("42"), BookmarkRef::Number(42));
    assert_eq!(BookmarkRef::parse("4x"), BookmarkRef::Alias("4x".into()));
}

#[test]
fn the_decimal_text_of_a_number_reads_back_as_that_bookmark() {
    for n in [1u32, 9, 10, 42, 1000, u32::MAX] {
        assert_eq!(BookmarkRef::parse(&n.to_string()), BookmarkRef::Number(n));
    }
    assert_eq!(BookmarkRef::parse("0"), BookmarkRef::Alias("0".to_string()));
}
