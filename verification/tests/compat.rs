use keeplin_core::compat::{
    compatible_with, handshake_from_reply, incompatible_message, version_url, Handshake,
    ServerInfo, PROTOCOL_VERSION,
};

#[test]
fn exact_match_is_compatible() {
    assert!(compatible_with(PROTOCOL_VERSION));
    assert!(!compatible_with(PROTOCOL_VERSION + 1));
    assert!(!compatible_with(0));
}

#[test]
fn incompatible_message_names_the_side_to_upgrade() {
    let newer_server = ServerInfo {
        name: "keeplin-srv".into(),
        version: "9.9.9".into(),
        protocol_version: PROTOCOL_VERSION + 1,
        capabilities: vec![],
    };
    let msg = incompatible_message(&newer_server);
    assert!(msg.contains("upgrade this keeplin client"), "{msg}");

    let older_server = ServerInfo {
        name: "keeplin-srv".into(),
        version: "0.0.1".into(),
        protocol_version: 0,
        capabilities: vec![],
    };
    let msg = incompatible_message(&older_server);
    assert!(msg.contains("upgrade keeplin-srv"), "{msg}");
}

#[test]
fn version_url_drops_trailing_slashes() {
    assert_eq!(version_url("http://host:3000/"), "http://host:3000/version");
    assert_eq!(version_url("http://host:3000"), "http://host:3000/version");
}

#[test]
fn a_server_without_a_version_reply_is_unavailable() {
    assert!(matches!(handshake_from_reply(None), Handshake::Unavailable));
    let same = ServerInfo {
        name: "keeplin-srv".into(),
        version: "1.0.0".into(),
        protocol_version: PROTOCOL_VERSION,
        capabilities: vec!["history".into()],
    };
    assert!(matches!(handshake_from_reply(Some(same)), Handshake::Compatible(_)));
    let other = ServerInfo {
        name: "keeplin-srv".into(),
        version: "2.0.0".into(),
        protocol_version: PROTOCOL_VERSION + 1,
        capabilities: vec![],
    };
    assert!(matches!(handshake_from_reply(Some(other)), Handshake::Incompatible(_)));
}
