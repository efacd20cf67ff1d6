use keeplin_core::paging::{paginate, PageItem};

fn items(n: u32) -> Vec<PageItem<u32>> {
    (0..n)
        .map(|i| PageItem { ts: format!("2024-01-01T00:00:{:02}.000000Z", i / 2), id: 1000 + i as u128, item: i })
        .collect()
}

#[test]
fn paged_walk_reproduces_the_full_key_order() {
    let all = items(23);
    let mut seen = Vec::new();
    let mut token: Option<String> = None;
    let mut pages = 0;
    loop {
        let (page, next) = paginate(all.clone(), 5, token.as_deref());
        pages += 1;
        seen.extend(page);
        match next {
            Some(t) => token = Some(t),
            None => break,
        }
    }
    assert_eq!(seen, (0..23).collect::<Vec<u32>>());
    assert_eq!(pages, 5);
}

#[test]
fn the_next_token_names_the_last_item_of_the_page() {
    let (page, next) = paginate(items(4), 2, None);
    assert_eq!(page, vec![0, 1]);
    assert_eq!(
        next.as_deref(),
        Some("2024-01-01T00:00:00.000000Z|00000000-0000-0000-0000-0000000003e9")
    );
    let (page, next) = paginate(items(4), 2, next.as_deref());
    assert_eq!(page, vec![2, 3]);
    assert_eq!(next, None);
}

#[test]
fn a_token_that_names_no_key_starts_at_the_first_page() {
    assert_eq!(paginate(items(3), 10, Some("garbage")).0, vec![0, 1, 2]);
    assert_eq!(paginate(items(3), 10, Some("2024|not-a-uuid")).0, vec![0, 1, 2]);
    assert_eq!(paginate(items(3), 10, Some("")).0, vec![0, 1, 2]);
    let (page, next) = paginate(items(3), 0, None);
    assert!(page.is_empty());
    assert!(next.is_none());
    let (page, _) = paginate(items(3), 10, Some("9999|00000000-0000-0000-0000-000000000000"));
    assert!(page.is_empty());
}
