use openclaw_bridge::bridge::{
    build_delivery_context, plan_webhook_message, resolve_delivery_thread_id,
    resolve_message_session_key, InboundAction, WebhookMessage,
};
use openclaw_bridge::sessions::{
    build_webhook_session_key, normalize_session_key, resolve_session_key, SessionScope,
    WebhookSessionParams,
};

fn msg(
    id: &str,
    content: &str,
    session: Option<&str>,
    peer_kind: Option<&str>,
    peer_id: Option<&str>,
) -> WebhookMessage {
    WebhookMessage {
        id: id.to_string(),
        content: content.to_string(),
        session: session.map(|s| s.to_string()),
        peer_kind: peer_kind.map(|s| s.to_string()),
        peer_id: peer_id.map(|s| s.to_string()),
        chat_type: None,
        chat_id: None,
        sender_id: None,
        topic_id: None,
        thread_id: None,
        msg_type: None,
    }
}

#[test]
fn explicit_session_wins_over_composite() {
    let m = msg("m1", "hi", Some("S1"), Some("dm"), Some("u1"));
    let key = resolve_message_session_key(&m, "main", &SessionScope::PerSender);
    assert_eq!(key.as_str(), "S1");
}

#[test]
fn composite_key_from_peer_fields() {
    let m = msg("m1", "hi", None, Some("dm"), Some("u42"));
    let key = resolve_message_session_key(&m, "main", &SessionScope::PerSender);
    assert_eq!(key.as_str(), "webhook:main:dm:u42");
}

#[test]
fn global_scope_fallback_yields_global() {
    let m = openclaw_bridge::sessions::WebhookMessage {
        id: "anything".to_string(),
        content: "text".to_string(),
        session: None,
    };
    let key = resolve_session_key(&SessionScope::Global, &m);
    assert_eq!(key.as_str(), "global");
}

#[test]
fn per_sender_scope_fallback_derives_from_id() {
    let m = openclaw_bridge::sessions::WebhookMessage {
        id: "m7".to_string(),
        content: "text".to_string(),
        session: None,
    };
    let key = resolve_session_key(&SessionScope::PerSender, &m);
    assert_eq!(key.as_str(), "webhook:m7");
}

#[test]
fn full_resolver_global_scope_without_peer_falls_back_to_global() {
    let m = msg("m1", "hi", None, None, None);
    let key = resolve_message_session_key(&m, "main", &SessionScope::Global);
    assert_eq!(key.as_str(), "global");
}

#[test]
fn explicit_session_is_trimmed() {
    let m = msg("m1", "hi", Some("  S2  "), None, None);
    let key = resolve_message_session_key(&m, "main", &SessionScope::PerSender);
    assert_eq!(key.as_str(), "S2");
}

#[test]
fn blank_explicit_session_falls_through() {
    let m = msg("m1", "hi", Some("   "), Some("dm"), Some("u1"));
    let key = resolve_message_session_key(&m, "main", &SessionScope::PerSender);
    assert_eq!(key.as_str(), "webhook:main:dm:u1");
}

#[test]
fn chat_fields_back_up_peer_fields() {
    let mut m = msg("m1", "hi", None, None, None);
    m.chat_type = Some("group".to_string());
    m.chat_id = Some("g9".to_string());
    let key = resolve_message_session_key(&m, "main", &SessionScope::PerSender);
    assert_eq!(key.as_str(), "webhook:main:group:g9");
}

#[test]
fn composite_key_appends_topic_and_thread() {
    let params = WebhookSessionParams {
        agent_id: "main".to_string(),
        peer_kind: "group".to_string(),
        peer_id: "g1".to_string(),
        topic_id: Some("t5".to_string()),
        thread_id: Some("th7".to_string()),
    };
    let key = build_webhook_session_key(&params).unwrap();
    assert_eq!(key.as_str(), "webhook:main:group:g1:t5:th7");
}

#[test]
fn composite_key_requires_peer_kind_and_id() {
    let params = WebhookSessionParams {
        agent_id: "main".to_string(),
        peer_kind: "".to_string(),
        peer_id: "u1".to_string(),
        topic_id: None,
        thread_id: None,
    };
    assert!(build_webhook_session_key(&params).is_none());
}

#[test]
fn empty_topic_suffix_is_skipped() {
    let params = WebhookSessionParams {
        agent_id: "main".to_string(),
        peer_kind: "dm".to_string(),
        peer_id: "u1".to_string(),
        topic_id: Some("".to_string()),
        thread_id: Some("th1".to_string()),
    };
    let key = build_webhook_session_key(&params).unwrap();
    assert_eq!(key.as_str(), "webhook:main:dm:u1:th1");
}

#[test]
fn normalize_trims_the_key() {
    assert_eq!(normalize_session_key("  k1\t").as_str(), "k1");
    assert_eq!(normalize_session_key("k2").as_str(), "k2");
}

#[test]
fn delivery_thread_dm_uses_thread_id() {
    let mut m = msg("m1", "hi", None, Some("dm"), Some("u1"));
    m.thread_id = Some("th1".to_string());
    m.topic_id = Some("t1".to_string());
    assert_eq!(resolve_delivery_thread_id(&m), Some("th1".to_string()));
}

#[test]
fn delivery_thread_group_prefers_topic() {
    let mut m = msg("m1", "hi", None, Some("group"), Some("g1"));
    m.thread_id = Some("th1".to_string());
    m.topic_id = Some("t1".to_string());
    assert_eq!(resolve_delivery_thread_id(&m), Some("t1".to_string()));
    m.topic_id = None;
    assert_eq!(resolve_delivery_thread_id(&m), Some("th1".to_string()));
}

#[test]
fn delivery_thread_unknown_kind_is_none() {
    let mut m = msg("m1", "hi", None, Some("broadcast"), Some("b1"));
    m.thread_id = Some("th1".to_string());
    assert_eq!(resolve_delivery_thread_id(&m), None);
}

#[test]
fn delivery_context_snapshots_route() {
    let mut m = msg("m1", "hi", None, Some("dm"), Some("u1"));
    m.thread_id = Some("th1".to_string());
    let ctx = build_delivery_context(&m, "uid-1");
    assert_eq!(ctx.channel, Some("webhook".to_string()));
    assert_eq!(ctx.to, Some("u1".to_string()));
    assert_eq!(ctx.account_id, Some("uid-1".to_string()));
    assert_eq!(ctx.thread_id, Some("th1".to_string()));
}

#[test]
fn delivery_context_falls_back_to_message_id() {
    let m = msg("m9", "hi", None, None, None);
    let ctx = build_delivery_context(&m, "uid-1");
    assert_eq!(ctx.to, Some("m9".to_string()));
}

#[test]
fn plan_drops_control_chatter() {
    let mut m = msg("m1", "hi", None, None, None);
    m.msg_type = Some("connected".to_string());
    match plan_webhook_message(&m, "main", &SessionScope::PerSender, "uid-1") {
        InboundAction::DropControlType => {}
        _ => panic!("control chatter must be dropped"),
    }
}

#[test]
fn plan_drops_empty_content() {
    let m = msg("m1", "", None, None, None);
    match plan_webhook_message(&m, "main", &SessionScope::PerSender, "uid-1") {
        InboundAction::DropEmpty => {}
        _ => panic!("empty content must be dropped"),
    }
}

#[test]
fn plan_routes_commands() {
    let m = msg("m1", "  /help  ", None, None, None);
    match plan_webhook_message(&m, "main", &SessionScope::PerSender, "uid-1") {
        InboundAction::Command(t) => assert_eq!(t.as_str(), "/help"),
        _ => panic!("commands must be dispatched"),
    }
}

#[test]
fn plan_forwards_conversational_content() {
    let m = msg("m1", "hello there", None, Some("dm"), Some("u42"));
    match plan_webhook_message(&m, "main", &SessionScope::PerSender, "uid-1") {
        InboundAction::Forward { session_key, content, reset, delivery } => {
            assert_eq!(session_key.as_str(), "webhook:main:dm:u42");
            assert_eq!(content.as_str(), "hello there");
            assert!(!reset);
            assert_eq!(delivery.channel, Some("webhook".to_string()));
        }
        _ => panic!("conversational content must be forwarded"),
    }
}
