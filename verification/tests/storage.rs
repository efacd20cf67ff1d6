use keeplin_core::storage::{build_page, default_entity_type, http_base_of, parse_cursor};

#[test]
fn a_page_token_splits_at_its_first_bar() {
    assert_eq!(
        parse_cursor(Some("2024-01-01T00:00:00Z|abc|def")),
        ("2024-01-01T00:00:00Z".to_string(), "abc|def".to_string())
    );
    assert_eq!(parse_cursor(Some("no-bar")), (String::new(), String::new()));
    assert_eq!(parse_cursor(Some("")), (String::new(), String::new()));
    assert_eq!(parse_cursor(None), (String::new(), String::new()));
}

#[test]
fn a_page_holds_the_limit_and_tokens_its_last_row() {
    let (rows, next) = build_page(vec![1, 2, 3, 4], 3, |r: &i32| format!("t{r}"));
    assert_eq!(rows, vec![1, 2, 3]);
    assert_eq!(next, Some("t3".to_string()));
    let (rows, next) = build_page(vec![1, 2], 3, |r: &i32| format!("t{r}"));
    assert_eq!(rows, vec![1, 2]);
    assert_eq!(next, None);
    let (rows, next) = build_page(vec![1, 2], 0, |r: &i32| format!("t{r}"));
    assert!(rows.is_empty());
    assert_eq!(next, None);
}

#[test]
fn the_http_base_follows_the_websocket_scheme() {
    assert_eq!(
        http_base_of("wss://sync.example.com/api/sync"),
        Some("https://sync.example.com".to_string())
    );
    assert_eq!(
        http_base_of("ws://host:3000/"),
        Some("http://host:3000".to_string())
    );
    assert_eq!(http_base_of("http://host"), None);
}

#[test]
fn journal_entries_default_to_notes() {
    assert_eq!(default_entity_type(), "note");
}
