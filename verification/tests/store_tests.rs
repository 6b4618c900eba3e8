use openclaw_bridge::sessions::{DeliveryContext, SessionEntry};
use openclaw_bridge::store::{SessionMap, Store, StoreConfig, StoreError};
use openclaw_bridge::codec::{load_store_text, parse_store, serialize_store};

fn ctx(channel: &str, to: &str) -> DeliveryContext {
    DeliveryContext {
        channel: Some(channel.to_string()),
        to: Some(to.to_string()),
        account_id: Some("acct".to_string()),
        thread_id: None,
    }
}

fn new_store() -> Store {
    Store::new(StoreConfig::new("sessions.json".to_string()))
}

#[test]
fn store_config_defaults() {
    let cfg = StoreConfig::new("p".to_string());
    assert_eq!(cfg.store_path.as_str(), "p");
    assert_eq!(cfg.cache_ttl_ms, 45000);
    assert_eq!(cfg.lock_timeout_ms, 10000);
}

#[test]
fn record_inbound_meta_creates_fresh_entry() {
    let mut store = new_store();
    let e = store.record_inbound_meta("k1", "m1", &ctx("webhook", "u1"));
    assert_eq!(e.session_id.len(), 36);
    assert!(e.updated_at >= 0);
    assert_eq!(e.webhook_message_id, Some("m1".to_string()));
    assert_eq!(e.last_channel, Some("webhook".to_string()));
    assert_eq!(e.last_to, Some("u1".to_string()));
    assert_eq!(e.session_file, None);
    assert_eq!(e.webhook_session_id, None);
    let got = store.get_entry("k1").unwrap();
    assert_eq!(got.session_id, e.session_id);
}

#[test]
fn record_inbound_meta_keeps_session_id_and_bumps_time() {
    let mut store = new_store();
    let first = store.record_inbound_meta("k1", "m1", &ctx("webhook", "u1"));
    let second = store.record_inbound_meta("k1", "m2", &ctx("webhook", "u2"));
    assert_eq!(second.session_id, first.session_id);
    assert!(second.updated_at >= first.updated_at);
    assert_eq!(second.webhook_message_id, Some("m2".to_string()));
    let loaded = store.load();
    let e = loaded.get("k1").unwrap();
    assert_eq!(e.session_id, first.session_id);
    assert!(e.updated_at >= first.updated_at);
}

#[test]
fn reset_then_record_changes_session_id() {
    let mut store = new_store();
    let before = store.record_inbound_meta("k1", "m1", &ctx("webhook", "u1"));
    let reset = store.reset_entry("k1");
    assert_ne!(reset.session_id, before.session_id);
    let after = store.record_inbound_meta("k1", "m2", &ctx("webhook", "u1"));
    assert_eq!(after.session_id, reset.session_id);
    assert_ne!(after.session_id, before.session_id);
}

#[test]
fn consecutive_resets_produce_distinct_ids() {
    let mut store = new_store();
    let a = store.reset_entry("k1");
    let b = store.reset_entry("k1");
    let c = store.reset_entry("k1");
    assert_ne!(a.session_id, b.session_id);
    assert_ne!(b.session_id, c.session_id);
    assert_ne!(a.session_id, c.session_id);
}

#[test]
fn reset_clears_route_history() {
    let mut store = new_store();
    store.record_inbound_meta("k1", "m1", &ctx("webhook", "u1"));
    let reset = store.reset_entry("k1");
    assert!(reset.delivery_context.is_none());
    assert!(reset.last_channel.is_none());
    assert!(reset.last_to.is_none());
    assert!(reset.webhook_message_id.is_none());
}

#[test]
fn update_last_route_touches_only_present_fields() {
    let mut store = new_store();
    let first = store.record_inbound_meta("k1", "m1", &ctx("webhook", "u1"));
    let narrow = DeliveryContext {
        channel: Some("webhook2".to_string()),
        to: None,
        account_id: None,
        thread_id: None,
    };
    let updated = store.update_last_route("k1", &narrow);
    assert_eq!(updated.session_id, first.session_id);
    assert_eq!(updated.last_channel, Some("webhook2".to_string()));
    assert_eq!(updated.last_to, Some("u1".to_string()));
    assert_eq!(updated.last_account_id, Some("acct".to_string()));
    assert_eq!(updated.last_thread_id, None);
    assert_eq!(updated.webhook_message_id, Some("m1".to_string()));
}

#[test]
fn update_last_route_overwrites_every_present_field() {
    let mut store = new_store();
    store.record_inbound_meta("k1", "m1", &ctx("webhook", "u1"));
    let full = DeliveryContext {
        channel: Some("c2".to_string()),
        to: Some("u2".to_string()),
        account_id: Some("a2".to_string()),
        thread_id: Some("t2".to_string()),
    };
    let updated = store.update_last_route("k1", &full);
    assert_eq!(updated.last_channel, Some("c2".to_string()));
    assert_eq!(updated.last_to, Some("u2".to_string()));
    assert_eq!(updated.last_account_id, Some("a2".to_string()));
    assert_eq!(updated.last_thread_id, Some("t2".to_string()));
    assert_eq!(updated.webhook_message_id, Some("m1".to_string()));
}

#[test]
fn update_entry_upserts_transform_result() {
    let mut store = new_store();
    let result = store.update_entry("k1", |existing| {
        assert!(existing.is_none());
        Ok(SessionEntry {
            session_id: "sid-1".to_string(),
            updated_at: 5,
            session_file: None,
            delivery_context: None,
            last_channel: None,
            last_to: None,
            last_account_id: None,
            last_thread_id: None,
            webhook_message_id: None,
            webhook_session_id: None,
        })
    });
    assert_eq!(result.unwrap().session_id.as_str(), "sid-1");
    assert_eq!(store.get_entry("k1").unwrap().updated_at, 5);
}

#[test]
fn update_entry_propagates_transform_error() {
    let mut store = new_store();
    let r = store.update_entry("k1", |_| Err(StoreError::LockTimeout));
    assert!(r.is_err());
    assert!(store.get_entry("k1").is_none());
}

#[test]
fn ttl_cache_freshness() {
    let mut store = new_store();
    assert!(store.needs_reload(0));
    store.install(SessionMap::new(), 1000);
    assert!(!store.needs_reload(1000));
    assert!(!store.needs_reload(1000 + 44_999));
    assert!(store.needs_reload(1000 + 45_000));
    assert!(store.needs_reload(999));
}

#[test]
fn save_then_load_round_trips_the_mapping() {
    let mut store = new_store();
    store.record_inbound_meta("alpha", "m1", &ctx("webhook", "u1"));
    store.record_inbound_meta("beta", "m2", &ctx("webhook", "u2"));
    store.reset_entry("gamma");
    let snapshot = store.to_persist();
    let text = serialize_store(&snapshot);
    let reloaded = load_store_text(text.as_str());
    assert_eq!(reloaded.entries.len(), snapshot.entries.len());
    for (key, entry) in &snapshot.entries {
        let got = reloaded.get(key.as_str()).expect("key must survive the round trip");
        assert_eq!(got.session_id, entry.session_id);
        assert_eq!(got.updated_at, entry.updated_at);
        assert_eq!(got.session_file, entry.session_file);
        assert_eq!(got.last_channel, entry.last_channel);
        assert_eq!(got.last_to, entry.last_to);
        assert_eq!(got.last_account_id, entry.last_account_id);
        assert_eq!(got.last_thread_id, entry.last_thread_id);
        assert_eq!(got.webhook_message_id, entry.webhook_message_id);
        assert_eq!(got.webhook_session_id, entry.webhook_session_id);
        let (dc_got, dc_want) = (&got.delivery_context, &entry.delivery_context);
        assert_eq!(dc_got.is_some(), dc_want.is_some());
        if let (Some(g), Some(w)) = (dc_got, dc_want) {
            assert_eq!(g.channel, w.channel);
            assert_eq!(g.to, w.to);
            assert_eq!(g.account_id, w.account_id);
            assert_eq!(g.thread_id, w.thread_id);
        }
    }
}

#[test]
fn round_trip_survives_escaped_characters() {
    let mut m = SessionMap::new();
    m.upsert(
        "key \"quoted\"\\slash",
        SessionEntry {
            session_id: "id\nwith\tcontrol\u{1}chars".to_string(),
            updated_at: 1234567890123,
            session_file: Some("file \"x\"".to_string()),
            delivery_context: Some(DeliveryContext {
                channel: Some("web\\hook".to_string()),
                to: Some("u\u{7f}1".to_string()),
                account_id: None,
                thread_id: None,
            }),
            last_channel: None,
            last_to: None,
            last_account_id: None,
            last_thread_id: None,
            webhook_message_id: Some("m,:{}[]".to_string()),
            webhook_session_id: None,
        },
    );
    let text = serialize_store(&m);
    let back = load_store_text(text.as_str());
    let got = back.get("key \"quoted\"\\slash").expect("escaped key must survive");
    assert_eq!(got.session_id.as_str(), "id\nwith\tcontrol\u{1}chars");
    assert_eq!(got.updated_at, 1234567890123);
    assert_eq!(got.session_file, Some("file \"x\"".to_string()));
    let dc = got.delivery_context.as_ref().unwrap();
    assert_eq!(dc.channel, Some("web\\hook".to_string()));
    assert_eq!(dc.to, Some("u\u{7f}1".to_string()));
    assert_eq!(got.webhook_message_id, Some("m,:{}[]".to_string()));
}

#[test]
fn unparsable_text_loads_as_empty_mapping() {
    assert_eq!(load_store_text("").entries.len(), 0);
    assert_eq!(load_store_text("not json at all").entries.len(), 0);
    assert_eq!(load_store_text("{\"k\":").entries.len(), 0);
    assert_eq!(load_store_text("[1,2,3]").entries.len(), 0);
}

#[test]
fn empty_object_loads_as_empty_mapping() {
    let m = parse_store("{}").expect("an empty object is a valid store");
    assert_eq!(m.entries.len(), 0);
    let m2 = parse_store("  { }  ").expect("whitespace around is fine");
    assert_eq!(m2.entries.len(), 0);
}

#[test]
fn duplicate_keys_reject_the_document() {
    let text = "{\"k\":{\"sessionId\":\"a\",\"updatedAt\":1},\"k\":{\"sessionId\":\"b\",\"updatedAt\":2}}";
    assert!(parse_store(text).is_none());
}

#[test]
fn entry_missing_required_fields_rejects_the_document() {
    assert!(parse_store("{\"k\":{\"sessionId\":\"a\"}}").is_none());
    assert!(parse_store("{\"k\":{\"updatedAt\":1}}").is_none());
    assert!(parse_store("{\"k\":{}}").is_none());
}

#[test]
fn parser_accepts_whitespace_and_unknown_fields() {
    let text = "{ \"k\" : { \"sessionId\" : \"sid\" , \"updatedAt\" : 7 , \"extra\" : \"ignored\" } }";
    let m = parse_store(text).expect("lenient parse");
    let e = m.get("k").unwrap();
    assert_eq!(e.session_id.as_str(), "sid");
    assert_eq!(e.updated_at, 7);
}

#[test]
fn serialized_document_is_compact_json() {
    let mut m = SessionMap::new();
    m.upsert(
        "k",
        SessionEntry {
            session_id: "sid".to_string(),
            updated_at: 42,
            session_file: None,
            delivery_context: None,
            last_channel: None,
            last_to: Some("u1".to_string()),
            last_account_id: None,
            last_thread_id: None,
            webhook_message_id: None,
            webhook_session_id: None,
        },
    );
    let text = serialize_store(&m);
    assert_eq!(
        text.as_str(),
        "{\"k\":{\"sessionId\":\"sid\",\"updatedAt\":42,\"lastTo\":\"u1\"}}"
    );
}

#[test]
fn store_update_applies_transform() {
    let mut store = new_store();
    let r = store.update(|mut m| {
        m.upsert(
            "k",
            SessionEntry {
                session_id: "sid".to_string(),
                updated_at: 1,
                session_file: None,
                delivery_context: None,
                last_channel: None,
                last_to: None,
                last_account_id: None,
                last_thread_id: None,
                webhook_message_id: None,
                webhook_session_id: None,
            },
        );
        Ok(m)
    });
    assert!(r.is_ok());
    assert_eq!(store.get_entry("k").unwrap().session_id.as_str(), "sid");
}

#[test]
fn store_error_messages() {
    assert_eq!(
        StoreError::Io("disk".to_string()).message().as_str(),
        "store I/O error: disk"
    );
    assert_eq!(StoreError::LockTimeout.message().as_str(), "store lock timed out");
}
