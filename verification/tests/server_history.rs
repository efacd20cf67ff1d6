use keeplin_core::server_history::{
    history_cap, history_source, history_url, journal_version, on_history_status, server_versions, CapabilityCache,
    HistorySource, ServerVersion, DEFAULT_HISTORY_LIMIT,
};

#[test]
fn capabilities_are_probed_once_and_then_answered() {
    let cache = CapabilityCache::Unknown;
    assert!(cache.needs_probe());
    assert_eq!(cache.has("history"), None);
    let cache = cache.after_probe(Some(vec!["history".to_string(), "blobs".to_string()]));
    assert!(!cache.needs_probe());
    assert_eq!(cache.has("history"), Some(true));
    assert_eq!(cache.has("presence"), Some(false));
    let cache = cache.after_probe(None);
    assert_eq!(cache.has("blobs"), Some(true));
    let failed = CapabilityCache::Unknown.after_probe(None);
    assert!(!failed.needs_probe());
    assert_eq!(failed.has("history"), None);
}

#[test]
fn the_server_is_asked_for_history_only_when_it_may_have_it() {
    assert_eq!(history_source(true, Some(true), true), (HistorySource::Local, false));
    assert_eq!(history_source(false, Some(false), true), (HistorySource::Local, true));
    assert_eq!(history_source(false, None, false), (HistorySource::Local, false));
    assert_eq!(history_source(false, None, true), (HistorySource::Server, false));
    assert_eq!(on_history_status(404), (false, true));
    assert_eq!(on_history_status(500), (false, false));
    assert_eq!(on_history_status(200), (true, false));
}

#[test]
fn the_history_address_and_limit() {
    assert_eq!(history_cap(0), DEFAULT_HISTORY_LIMIT);
    assert_eq!(history_cap(7), 7);
    assert_eq!(
        history_url("https://h", "note", 1, 50),
        "https://h/api/notes/00000000-0000-0000-0000-000000000001/history?limit=50"
    );
}

#[test]
fn unreadable_server_versions_are_left_out() {
    let listed = vec![
        ServerVersion { timestamp: 3, device_id: "a".into(), entity: Some(Some(30u32)) },
        ServerVersion { timestamp: 2, device_id: "b".into(), entity: Some(None) },
        ServerVersion { timestamp: 1, device_id: "c".into(), entity: None },
    ];
    let got: Vec<(i128, Option<u32>)> = server_versions(listed).into_iter().map(|v| (v.timestamp, v.entity)).collect();
    assert_eq!(got, vec![(3, Some(30)), (1, None)]);
}

#[test]
fn journal_rows_give_entities_deletions_or_nothing() {
    assert_eq!(journal_version("create", Some(1u8)), Some(Some(1)));
    assert_eq!(journal_version("update", None::<u8>), None);
    assert_eq!(journal_version("delete", Some(1u8)), Some(None));
    assert_eq!(journal_version("frob", Some(1u8)), None);
}
