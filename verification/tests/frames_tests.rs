use openclaw_bridge::frames::{
    build_agent_request, build_connect_request, build_downstream_frame, format_command_response,
    make_agent_request,
};

#[test]
fn downstream_frame_is_exact_json() {
    let f = build_downstream_frame("progress", "hi", "S1");
    assert_eq!(f.as_str(), "{\"type\":\"progress\",\"content\":\"hi\",\"session\":\"S1\"}");
}

#[test]
fn downstream_frame_escapes_fields() {
    let f = build_downstream_frame("complete", "a\"b\\c\nd", "S");
    assert_eq!(
        f.as_str(),
        "{\"type\":\"complete\",\"content\":\"a\\\"b\\\\c\\u000ad\",\"session\":\"S\"}"
    );
}

#[test]
fn command_response_is_a_complete_frame() {
    let f = format_command_response("done", "global");
    assert_eq!(f.as_str(), "{\"type\":\"complete\",\"content\":\"done\",\"session\":\"global\"}");
}

#[test]
fn agent_request_carries_idempotency_key() {
    let f = build_agent_request("hello", "main", "webhook:main:dm:u1", 123456789);
    assert_eq!(
        f.as_str(),
        "{\"type\":\"req\",\"id\":\"agent:123456789\",\"method\":\"agent\",\"params\":{\"message\":\"hello\",\"agentId\":\"main\",\"sessionKey\":\"webhook:main:dm:u1\",\"deliver\":true,\"idempotencyKey\":\"123456789\"}}"
    );
}

#[test]
fn stamped_agent_request_is_well_formed() {
    let f = make_agent_request("hello", "main", "global");
    let s = f.as_str();
    assert!(s.starts_with("{\"type\":\"req\",\"id\":\"agent:"));
    assert!(s.contains("\"sessionKey\":\"global\""));
    assert!(s.contains("\"deliver\":true"));
    assert!(s.ends_with("\"}}"));
}

#[test]
fn connect_request_embeds_the_token() {
    let f = build_connect_request("tok\"en");
    let s = f.as_str();
    assert!(s.starts_with(
        "{\"type\":\"req\",\"id\":\"connect\",\"method\":\"connect\",\"params\":{\"minProtocol\":3,\"maxProtocol\":3,"
    ));
    assert!(s.contains("\"auth\":{\"token\":\"tok\\\"en\"}"));
    assert!(s.contains("\"scopes\":[\"operator.read\",\"operator.write\",\"operator.admin\"]"));
    assert!(s.ends_with("\"userAgent\":\"openclaw-bridge-rust\"}}"));
}
