use openclaw_bridge::translate::{
    plan_upstream_event, translate_event, ContentItem, GatewayEvent, Translation,
};

fn base_event() -> GatewayEvent {
    GatewayEvent {
        housekeeping: None,
        event_type: None,
        stream: None,
        session_key: None,
        phase: None,
        text: None,
        state: None,
        content: Vec::new(),
    }
}

fn text_item(text: &str) -> ContentItem {
    ContentItem { item_type: Some("text".to_string()), text: Some(text.to_string()) }
}

#[test]
fn chat_final_emits_complete_with_accumulated_text() {
    let mut ev = base_event();
    ev.event_type = Some("chat".to_string());
    ev.state = Some("final".to_string());
    ev.session_key = Some("S".to_string());
    ev.content = vec![text_item("hello")];
    match translate_event(&ev) {
        Translation::Emit(s) => {
            assert_eq!(s.as_str(), "{\"type\":\"complete\",\"content\":\"hello\",\"session\":\"S\"}");
        }
        _ => panic!("chat final must emit a complete frame"),
    }
}

#[test]
fn agent_tool_stream_emits_nothing() {
    let mut ev = base_event();
    ev.event_type = Some("agent".to_string());
    ev.stream = Some("tool".to_string());
    ev.session_key = Some("S".to_string());
    match translate_event(&ev) {
        Translation::DropEvent => {}
        _ => panic!("the tool stream always emits nothing"),
    }
}

#[test]
fn agent_lifecycle_end_emits_empty_complete() {
    let mut ev = base_event();
    ev.event_type = Some("agent".to_string());
    ev.stream = Some("lifecycle".to_string());
    ev.session_key = Some("S1".to_string());
    ev.phase = Some("end".to_string());
    match translate_event(&ev) {
        Translation::Emit(s) => {
            assert_eq!(s.as_str(), "{\"type\":\"complete\",\"content\":\"\",\"session\":\"S1\"}");
        }
        _ => panic!("lifecycle end must emit"),
    }
}

#[test]
fn agent_lifecycle_other_phase_is_dropped() {
    let mut ev = base_event();
    ev.event_type = Some("agent".to_string());
    ev.stream = Some("lifecycle".to_string());
    ev.session_key = Some("S1".to_string());
    ev.phase = Some("start".to_string());
    assert!(matches!(translate_event(&ev), Translation::DropEvent));
}

#[test]
fn agent_assistant_emits_progress_iff_text_nonempty() {
    let mut ev = base_event();
    ev.event_type = Some("agent".to_string());
    ev.stream = Some("assistant".to_string());
    ev.session_key = Some("S".to_string());
    ev.text = Some("chunk".to_string());
    match translate_event(&ev) {
        Translation::Emit(s) => {
            assert_eq!(s.as_str(), "{\"type\":\"progress\",\"content\":\"chunk\",\"session\":\"S\"}");
        }
        _ => panic!("assistant text must emit progress"),
    }
    ev.text = Some("".to_string());
    assert!(matches!(translate_event(&ev), Translation::DropEvent));
}

#[test]
fn agent_without_stream_or_key_is_dropped() {
    let mut ev = base_event();
    ev.event_type = Some("agent".to_string());
    ev.session_key = Some("S".to_string());
    assert!(matches!(translate_event(&ev), Translation::DropEvent));
    ev.stream = Some("assistant".to_string());
    ev.session_key = None;
    assert!(matches!(translate_event(&ev), Translation::DropEvent));
}

#[test]
fn chat_delta_emits_progress_only_with_text() {
    let mut ev = base_event();
    ev.event_type = Some("chat".to_string());
    ev.state = Some("delta".to_string());
    ev.session_key = Some("S".to_string());
    ev.content = vec![text_item("part")];
    match translate_event(&ev) {
        Translation::Emit(s) => {
            assert_eq!(s.as_str(), "{\"type\":\"progress\",\"content\":\"part\",\"session\":\"S\"}");
        }
        _ => panic!("delta with text must emit progress"),
    }
    ev.content = Vec::new();
    assert!(matches!(translate_event(&ev), Translation::DropEvent));
}

#[test]
fn chat_error_discards_text_for_generic_message() {
    let mut ev = base_event();
    ev.event_type = Some("chat".to_string());
    ev.state = Some("error".to_string());
    ev.session_key = Some("S".to_string());
    ev.content = vec![text_item("ignored")];
    match translate_event(&ev) {
        Translation::Emit(s) => {
            assert_eq!(
                s.as_str(),
                "{\"type\":\"error\",\"content\":\"An error occurred\",\"session\":\"S\"}"
            );
        }
        _ => panic!("chat error must emit the generic error"),
    }
}

#[test]
fn chat_concatenates_only_text_items() {
    let mut ev = base_event();
    ev.event_type = Some("chat".to_string());
    ev.state = Some("final".to_string());
    ev.session_key = Some("S".to_string());
    ev.content = vec![
        text_item("a"),
        ContentItem { item_type: Some("image".to_string()), text: Some("x".to_string()) },
        text_item("b"),
    ];
    match translate_event(&ev) {
        Translation::Emit(s) => {
            assert_eq!(s.as_str(), "{\"type\":\"complete\",\"content\":\"ab\",\"session\":\"S\"}");
        }
        _ => panic!("only text items accumulate"),
    }
}

#[test]
fn content_item_without_type_poisons_the_event() {
    let mut ev = base_event();
    ev.event_type = Some("chat".to_string());
    ev.state = Some("final".to_string());
    ev.session_key = Some("S".to_string());
    ev.content = vec![ContentItem { item_type: None, text: Some("a".to_string()) }];
    assert!(matches!(translate_event(&ev), Translation::DropEvent));
}

#[test]
fn unknown_event_type_passes_through() {
    let mut ev = base_event();
    ev.event_type = Some("notice".to_string());
    assert!(matches!(translate_event(&ev), Translation::PassThrough));
}

#[test]
fn missing_event_type_is_dropped() {
    let ev = base_event();
    assert!(matches!(translate_event(&ev), Translation::DropEvent));
}

#[test]
fn housekeeping_events_are_dropped_before_translation() {
    for kind in ["lifecycle", "tick", "presence", "health"] {
        let mut ev = base_event();
        ev.housekeeping = Some(kind.to_string());
        ev.event_type = Some("notice".to_string());
        assert!(matches!(plan_upstream_event(&ev), Translation::DropEvent));
    }
    let mut ev = base_event();
    ev.housekeeping = Some("message".to_string());
    ev.event_type = Some("notice".to_string());
    assert!(matches!(plan_upstream_event(&ev), Translation::PassThrough));
}

#[test]
fn emitted_frames_escape_content() {
    let mut ev = base_event();
    ev.event_type = Some("chat".to_string());
    ev.state = Some("final".to_string());
    ev.session_key = Some("S".to_string());
    ev.content = vec![text_item("say \"hi\"\\now")];
    match translate_event(&ev) {
        Translation::Emit(s) => {
            assert_eq!(
                s.as_str(),
                "{\"type\":\"complete\",\"content\":\"say \\\"hi\\\"\\\\now\",\"session\":\"S\"}"
            );
        }
        _ => panic!("must emit"),
    }
}
