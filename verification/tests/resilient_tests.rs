use openclaw_bridge::resilient::{
    conn_step, frame_action, send_decision, Backoff, ConnEvent, ConnState, FrameAction, FrameKind,
    SendDecision, CONNECT_TIMEOUT_MS, OUTBOUND_QUEUE_CAPACITY,
};

#[test]
fn backoff_doubles_and_caps() {
    let mut b = Backoff::new(1000, 30000);
    assert_eq!(b.on_failure(), 1000);
    assert_eq!(b.on_failure(), 2000);
    assert_eq!(b.on_failure(), 4000);
    assert_eq!(b.on_failure(), 8000);
    assert_eq!(b.on_failure(), 16000);
    assert_eq!(b.on_failure(), 30000);
    assert_eq!(b.on_failure(), 30000);
}

#[test]
fn backoff_matches_the_closed_form() {
    let (initial, max) = (2000u64, 30000u64);
    let mut b = Backoff::new(initial, max);
    for n in 1u32..10 {
        let expected = std::cmp::min(initial.saturating_mul(1u64 << (n - 1)), max);
        assert_eq!(b.on_failure(), expected);
    }
}

#[test]
fn backoff_resets_after_success() {
    let mut b = Backoff::new(1000, 30000);
    b.on_failure();
    b.on_failure();
    b.on_failure();
    b.on_success();
    assert_eq!(b.on_failure(), 1000);
    assert_eq!(b.on_failure(), 2000);
}

#[test]
fn connection_state_machine_cycles() {
    let s = ConnState::Disconnected;
    let s = conn_step(s, ConnEvent::AttemptStart);
    assert_eq!(s, ConnState::Connecting);
    let s = conn_step(s, ConnEvent::HandshakeOk);
    assert_eq!(s, ConnState::Connected);
    let s = conn_step(s, ConnEvent::ConnectionLost);
    assert_eq!(s, ConnState::Disconnected);
    let s = conn_step(s, ConnEvent::AttemptStart);
    let s = conn_step(s, ConnEvent::AttemptFail);
    assert_eq!(s, ConnState::Disconnected);
}

#[test]
fn close_is_terminal() {
    let s = conn_step(ConnState::Connected, ConnEvent::CloseRequested);
    assert_eq!(s, ConnState::Closed);
    for e in [
        ConnEvent::AttemptStart,
        ConnEvent::HandshakeOk,
        ConnEvent::AttemptFail,
        ConnEvent::ConnectionLost,
        ConnEvent::CloseRequested,
    ] {
        assert_eq!(conn_step(ConnState::Closed, e), ConnState::Closed);
    }
}

#[test]
fn pings_are_answered_with_pongs() {
    assert_eq!(frame_action(FrameKind::Ping), FrameAction::ReplyPong);
    assert_eq!(frame_action(FrameKind::Text), FrameAction::Deliver);
    assert_eq!(frame_action(FrameKind::Binary), FrameAction::Deliver);
    assert_eq!(frame_action(FrameKind::Pong), FrameAction::Ignore);
    assert_eq!(frame_action(FrameKind::CloseFrame), FrameAction::Shutdown);
}

#[test]
fn send_decisions() {
    assert_eq!(send_decision(false, false), SendDecision::RejectNotConnected);
    assert_eq!(send_decision(true, true), SendDecision::Enqueue);
    assert_eq!(send_decision(true, false), SendDecision::AwaitReconnect);
}

#[test]
fn connection_bounds() {
    assert_eq!(CONNECT_TIMEOUT_MS, 5000);
    assert_eq!(OUTBOUND_QUEUE_CAPACITY, 100);
}
