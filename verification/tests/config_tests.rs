use openclaw_bridge::config::{build_config, get_display_uid, BridgeJSON};
use openclaw_bridge::sessions::{
    control_type_from_str, current_timestamp, generate_session_id, ControlMessageType,
    SessionListResponse, SessionScope,
};

fn bridge_json(url: &str, agent: Option<&str>, uid: Option<&str>) -> BridgeJSON {
    BridgeJSON {
        webhook_url: url.to_string(),
        agent_id: agent.map(|s| s.to_string()),
        uid: uid.map(|s| s.to_string()),
    }
}

#[test]
fn config_defaults_are_filled_in() {
    let cfg = build_config(
        bridge_json("wss://example/ws", None, None),
        None,
        "tok".to_string(),
        "/tmp/sessions.json".to_string(),
        "fresh-uid".to_string(),
    )
    .unwrap();
    assert_eq!(cfg.webhook_url.as_str(), "wss://example/ws");
    assert_eq!(cfg.openclaw.agent_id.as_str(), "main");
    assert_eq!(cfg.openclaw.gateway_port, 18789);
    assert_eq!(cfg.openclaw.gateway_token.as_str(), "tok");
    assert_eq!(cfg.uid.as_str(), "fresh-uid");
    assert_eq!(cfg.session_store_path.as_str(), "/tmp/sessions.json");
    assert_eq!(cfg.session_scope.as_str(), "per-sender");
}

#[test]
fn config_keeps_explicit_values() {
    let cfg = build_config(
        bridge_json("wss://example/ws", Some("agent-7"), Some("uid-7")),
        Some(9000),
        "tok".to_string(),
        "p".to_string(),
        "fresh".to_string(),
    )
    .unwrap();
    assert_eq!(cfg.openclaw.agent_id.as_str(), "agent-7");
    assert_eq!(cfg.openclaw.gateway_port, 9000);
    assert_eq!(cfg.uid.as_str(), "uid-7");
}

#[test]
fn missing_webhook_url_is_fatal() {
    let r = build_config(
        bridge_json("", None, None),
        None,
        "tok".to_string(),
        "p".to_string(),
        "fresh".to_string(),
    );
    let err = r.err().expect("an empty webhook URL is rejected");
    assert_eq!(
        err.message().as_str(),
        "webhook_url is required in the bridge configuration"
    );
}

#[test]
fn display_uid_banner() {
    let cfg = build_config(
        bridge_json("wss://x", None, None),
        None,
        "t".to_string(),
        "p".to_string(),
        "u-1".to_string(),
    )
    .unwrap();
    assert_eq!(get_display_uid(&cfg).as_str(), "Bridge UID: u-1");
}

#[test]
fn scope_labels_round_trip() {
    assert_eq!(SessionScope::from_label("global"), SessionScope::Global);
    assert_eq!(SessionScope::from_label("per-sender"), SessionScope::PerSender);
    assert_eq!(SessionScope::from_label("anything-else"), SessionScope::PerSender);
    assert_eq!(SessionScope::Global.scope_label(), "global");
    assert_eq!(SessionScope::PerSender.scope_label(), "per-sender");
}

#[test]
fn control_types_classify_wire_strings() {
    assert_eq!(control_type_from_str("session.get"), Some(ControlMessageType::SessionGet));
    assert_eq!(control_type_from_str("session.list"), Some(ControlMessageType::SessionList));
    assert_eq!(control_type_from_str("session.reset"), Some(ControlMessageType::SessionReset));
    assert_eq!(control_type_from_str("session.delete"), Some(ControlMessageType::SessionDelete));
    assert_eq!(control_type_from_str("chat"), None);
    assert_eq!(control_type_from_str(""), None);
}

#[test]
fn generated_session_ids_are_uuids() {
    let a = generate_session_id();
    let b = generate_session_id();
    assert_eq!(a.len(), 36);
    assert_eq!(b.len(), 36);
    assert_ne!(a, b);
    assert!(a.chars().all(|c| c == '-' || c.is_ascii_hexdigit()));
}

#[test]
fn timestamps_are_plausible() {
    let t = current_timestamp();
    assert!(t > 1_500_000_000_000);
}

#[test]
fn session_list_response_counts_sessions() {
    let r = SessionListResponse::new(Vec::new());
    assert_eq!(r.count, 0);
    assert_eq!(r.sessions.len(), 0);
}
