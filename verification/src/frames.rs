//! Outbound wire frames: the canonical downstream message, the gateway
//! handshake, and the agent request.  Each builder emits exactly the JSON
//! its specification names, with every embedded string escaped by the
//! codec.

use vstd::prelude::*;

verus! {

use vstd::string::StringExecFns;
use crate::codec::{ser_string, ser_i64, write_json_string, write_i64};
use crate::strutil::string_push;

/// The canonical downstream frame `{"type":…,"content":…,"session":…}`.
pub open spec fn frame_spec(kind: Seq<char>, content: Seq<char>, session: Seq<char>) -> Seq<
    char,
> {
    "{\"type\":"@ + ser_string(kind) + ",\"content\":"@ + ser_string(content) + ",\"session\":"@
        + ser_string(session) + "}"@
}

/// Builds a downstream frame.
pub fn build_downstream_frame(kind: &str, content: &str, session: &str) -> (r: String)
    ensures
        r@ == frame_spec(kind@, content@, session@),
{
    let mut out = String::from_str("{\"type\":");
    write_json_string(&mut out, kind);
    out.append(",\"content\":");
    write_json_string(&mut out, content);
    out.append(",\"session\":");
    write_json_string(&mut out, session);
    out.append("}");
    proof {
        assert(out@ =~= frame_spec(kind@, content@, session@));
    }
    out
}

/// A local command reply wrapped as a `complete` downstream frame.
pub fn format_command_response(response: &str, session: &str) -> (r: String)
    ensures
        r@ == frame_spec("complete"@, response@, session@),
{
    build_downstream_frame("complete", response, session)
}

/// The gateway handshake, sent immediately on connect; only the token
/// varies.
pub open spec fn connect_request_spec(token: Seq<char>) -> Seq<char> {
    "{\"type\":\"req\",\"id\":\"connect\",\"method\":\"connect\",\"params\":{\"minProtocol\":3,\"maxProtocol\":3,\"client\":{\"id\":\"gateway-client\",\"version\":\"0.2.0\",\"platform\":\"linux\",\"mode\":\"backend\"},\"role\":\"operator\",\"scopes\":[\"operator.read\",\"operator.write\",\"operator.admin\"],\"auth\":{\"token\":"@
        + ser_string(token)
        + "},\"locale\":\"zh-CN\",\"userAgent\":\"openclaw-bridge-rust\"}}"@
}

/// Builds the gateway handshake frame.
pub fn build_connect_request(token: &str) -> (r: String)
    ensures
        r@ == connect_request_spec(token@),
{
    let mut out = String::from_str(
        "{\"type\":\"req\",\"id\":\"connect\",\"method\":\"connect\",\"params\":{\"minProtocol\":3,\"maxProtocol\":3,\"client\":{\"id\":\"gateway-client\",\"version\":\"0.2.0\",\"platform\":\"linux\",\"mode\":\"backend\"},\"role\":\"operator\",\"scopes\":[\"operator.read\",\"operator.write\",\"operator.admin\"],\"auth\":{\"token\":",
    );
    write_json_string(&mut out, token);
    out.append("},\"locale\":\"zh-CN\",\"userAgent\":\"openclaw-bridge-rust\"}}");
    proof {
        assert(out@ =~= connect_request_spec(token@));
    }
    out
}

/// An agent request: the timestamp tags the frame id and doubles as the
/// idempotency key, so the gateway can deduplicate retried sends.
pub open spec fn agent_request_spec(
    message: Seq<char>,
    agent_id: Seq<char>,
    session_key: Seq<char>,
    nanos: int,
) -> Seq<char> {
    "{\"type\":\"req\",\"id\":\"agent:"@ + ser_i64(nanos) + "\",\"method\":\"agent\",\"params\":{\"message\":"@
        + ser_string(message) + ",\"agentId\":"@ + ser_string(agent_id) + ",\"sessionKey\":"@
        + ser_string(session_key) + ",\"deliver\":true,\"idempotencyKey\":\""@ + ser_i64(nanos)
        + "\"}}"@
}

/// Builds an agent request for a given timestamp.
pub fn build_agent_request(message: &str, agent_id: &str, session_key: &str, nanos: i64) -> (r:
    String)
    ensures
        r@ == agent_request_spec(message@, agent_id@, session_key@, nanos as int),
{
    let mut out = String::from_str("{\"type\":\"req\",\"id\":\"agent:");
    write_i64(&mut out, nanos);
    out.append("\",\"method\":\"agent\",\"params\":{\"message\":");
    write_json_string(&mut out, message);
    out.append(",\"agentId\":");
    write_json_string(&mut out, agent_id);
    out.append(",\"sessionKey\":");
    write_json_string(&mut out, session_key);
    out.append(",\"deliver\":true,\"idempotencyKey\":\"");
    write_i64(&mut out, nanos);
    out.append("\"}}");
    proof {
        assert(out@ =~= agent_request_spec(message@, agent_id@, session_key@, nanos as int));
    }
    out
}

/// Builds an agent request stamped with the wall clock; the timestamp is
/// whatever the clock read, so the contract holds for every reading.
pub fn make_agent_request(message: &str, agent_id: &str, session_key: &str) -> (r: String)
    ensures
        exists|n: int| r@ == agent_request_spec(message@, agent_id@, session_key@, n),
{
    let nanos = crate::sessions::current_timestamp_nanos();
    let r = build_agent_request(message, agent_id, session_key, nanos);
    proof {
        assert(r@ == agent_request_spec(message@, agent_id@, session_key@, nanos as int));
    }
    r
}

} // verus!
