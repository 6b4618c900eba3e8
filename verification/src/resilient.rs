//! The resilient-connection core: the connection state machine, the
//! frame-reaction rules, the send decision, and exponential reconnect
//! backoff with its delay law.

use vstd::prelude::*;

verus! {

/// Time a connection attempt may take before it fails with a timeout, in
/// milliseconds.
pub const CONNECT_TIMEOUT_MS: u64 = 5000;

/// Capacity of the bounded outbound queue.
pub const OUTBOUND_QUEUE_CAPACITY: usize = 100;

pub open spec fn min_int(a: int, b: int) -> int {
    if a <= b {
        a
    } else {
        b
    }
}

pub open spec fn pow2_spec(n: nat) -> int
    decreases n,
{
    if n == 0 {
        1
    } else {
        2 * pow2_spec((n - 1) as nat)
    }
}

/// Transient per-connection state; never persisted.
#[derive(Debug, Clone, Copy, PartialEq, Eq, Structural)]
pub enum ConnState {
    Disconnected,
    Connecting,
    Connected,
    Closed,
}

/// What the supervision loop observed.
#[derive(Debug, Clone, Copy, PartialEq, Eq, Structural)]
pub enum ConnEvent {
    AttemptStart,
    HandshakeOk,
    AttemptFail,
    ConnectionLost,
    CloseRequested,
}

/// The connection state machine: Disconnected → Connecting → Connected →
/// Disconnected → …; a close request is terminal from every state.
pub open spec fn conn_step_spec(s: ConnState, e: ConnEvent) -> ConnState {
    match e {
        ConnEvent::CloseRequested => ConnState::Closed,
        ConnEvent::AttemptStart => match s {
            ConnState::Disconnected => ConnState::Connecting,
            _ => s,
        },
        ConnEvent::HandshakeOk => match s {
            ConnState::Connecting => ConnState::Connected,
            _ => s,
        },
        ConnEvent::AttemptFail => match s {
            ConnState::Connecting => ConnState::Disconnected,
            _ => s,
        },
        ConnEvent::ConnectionLost => match s {
            ConnState::Connected => ConnState::Disconnected,
            _ => s,
        },
    }
}

/// Advances the connection state machine by one observed event.
pub fn conn_step(s: ConnState, e: ConnEvent) -> (r: ConnState)
    ensures
        r == conn_step_spec(s, e),
{
    match e {
        ConnEvent::CloseRequested => ConnState::Closed,
        ConnEvent::AttemptStart => match s {
            ConnState::Disconnected => ConnState::Connecting,
            _ => s,
        },
        ConnEvent::HandshakeOk => match s {
            ConnState::Connecting => ConnState::Connected,
            _ => s,
        },
        ConnEvent::AttemptFail => match s {
            ConnState::Connecting => ConnState::Disconnected,
            _ => s,
        },
        ConnEvent::ConnectionLost => match s {
            ConnState::Connected => ConnState::Disconnected,
            _ => s,
        },
    }
}

/// Law: a close request is terminal — once closed, no event leaves the
/// closed state.
pub proof fn lemma_close_is_terminal(e: ConnEvent)
    ensures
        conn_step_spec(ConnState::Closed, e) == ConnState::Closed,
{
}

/// Kinds of transport frames a connection can receive.
#[derive(Debug, Clone, Copy, PartialEq, Eq, Structural)]
pub enum FrameKind {
    Text,
    Binary,
    Ping,
    Pong,
    CloseFrame,
}

/// How the read loop must react to one inbound frame.
#[derive(Debug, Clone, Copy, PartialEq, Eq, Structural)]
pub enum FrameAction {
    Deliver,
    ReplyPong,
    Shutdown,
    Ignore,
}

pub open spec fn frame_action_spec(k: FrameKind) -> FrameAction {
    match k {
        FrameKind::Text => FrameAction::Deliver,
        FrameKind::Binary => FrameAction::Deliver,
        FrameKind::Ping => FrameAction::ReplyPong,
        FrameKind::Pong => FrameAction::Ignore,
        FrameKind::CloseFrame => FrameAction::Shutdown,
    }
}

/// Decides the reaction to one inbound frame: application frames are
/// delivered, a ping is answered with a pong on the same connection, and a
/// close frame shuts the attempt down.
pub fn frame_action(k: FrameKind) -> (r: FrameAction)
    ensures
        r == frame_action_spec(k),
{
    match k {
        FrameKind::Text => FrameAction::Deliver,
        FrameKind::Binary => FrameAction::Deliver,
        FrameKind::Ping => FrameAction::ReplyPong,
        FrameKind::Pong => FrameAction::Ignore,
        FrameKind::CloseFrame => FrameAction::Shutdown,
    }
}

/// What `send` must do given the connection's snapshot.
#[derive(Debug, Clone, Copy, PartialEq, Eq, Structural)]
pub enum SendDecision {
    Enqueue,
    AwaitReconnect,
    RejectNotConnected,
}

pub open spec fn send_decision_spec(initialized: bool, connected: bool) -> SendDecision {
    if !initialized {
        SendDecision::RejectNotConnected
    } else if connected {
        SendDecision::Enqueue
    } else {
        SendDecision::AwaitReconnect
    }
}

/// Decides how to treat an outbound send: never connected fails at once,
/// transiently disconnected waits briefly for reconnection, otherwise the
/// payload joins the bounded outbound queue.
pub fn send_decision(initialized: bool, connected: bool) -> (r: SendDecision)
    ensures
        r == send_decision_spec(initialized, connected),
{
    if !initialized {
        SendDecision::RejectNotConnected
    } else if connected {
        SendDecision::Enqueue
    } else {
        SendDecision::AwaitReconnect
    }
}

/// Reconnect backoff: a delay that starts at a fixed initial value, doubles
/// per failed attempt, caps at a maximum, and resets on success.
pub struct Backoff {
    pub initial_ms: u64,
    pub max_ms: u64,
    pub current_ms: u64,
}

impl Backoff {
    pub open spec fn wf(&self) -> bool {
        &&& 1 <= self.initial_ms
        &&& self.initial_ms <= self.current_ms
        &&& self.current_ms <= self.max_ms
        &&& self.max_ms <= 0x7fff_ffff_ffff_ffff
    }

    pub fn new(initial_ms: u64, max_ms: u64) -> (r: Backoff)
        requires
            1 <= initial_ms <= max_ms <= 0x7fff_ffff_ffff_ffff,
        ensures
            r.wf(),
            r.initial_ms == initial_ms,
            r.max_ms == max_ms,
            r.current_ms == initial_ms,
    {
        Backoff { initial_ms, max_ms, current_ms: initial_ms }
    }

    /// Registers one more consecutive failure: returns the delay to wait
    /// before the next attempt and doubles the following delay, capped at
    /// the maximum.
    pub fn on_failure(&mut self) -> (delay: u64)
        requires
            old(self).wf(),
        ensures
            final(self).wf(),
            delay == old(self).current_ms,
            final(self).current_ms as int == min_int(2 * old(self).current_ms as int, old(self).max_ms as int),
            final(self).initial_ms == old(self).initial_ms,
            final(self).max_ms == old(self).max_ms,
    {
        let delay = self.current_ms;
        if self.current_ms <= self.max_ms / 2 {
            self.current_ms = self.current_ms * 2;
        } else {
            self.current_ms = self.max_ms;
        }
        delay
    }

    /// Any successful connection resets the delay to the initial value.
    pub fn on_success(&mut self)
        requires
            old(self).wf(),
        ensures
            final(self).wf(),
            final(self).current_ms == old(self).initial_ms,
            final(self).initial_ms == old(self).initial_ms,
            final(self).max_ms == old(self).max_ms,
    {
        self.current_ms = self.initial_ms;
    }

    /// The delay returned by the n-th consecutive `on_failure` call after a
    /// reset, by the doubling rule.
    pub open spec fn nth_delay(initial: int, max: int, n: nat) -> int
        decreases n,
    {
        if n <= 1 {
            initial
        } else {
            min_int(2 * Self::nth_delay(initial, max, (n - 1) as nat), max)
        }
    }
}

/// Law: after n ≥ 1 consecutive failures since the last success, the delay
/// before attempt n+1 is min(initial·2^(n−1), max).  `on_success`'s
/// contract states the reset to the initial delay.
pub proof fn lemma_backoff_delay_formula(initial: int, max: int, n: nat)
    requires
        1 <= initial <= max,
        n >= 1,
    ensures
        Backoff::nth_delay(initial, max, n) == min_int(initial * pow2_spec((n - 1) as nat), max),
    decreases n,
{
    if n == 1 {
        assert(pow2_spec(0) == 1);
    } else {
        lemma_backoff_delay_formula(initial, max, (n - 1) as nat);
        let p = pow2_spec((n - 2) as nat);
        assert(pow2_spec((n - 1) as nat) == 2 * p);
        assert(2 * (initial * p) == initial * (2 * p)) by (nonlinear_arith);
        lemma_pow2_pos((n - 2) as nat);
        if initial * p <= max {
            assert(Backoff::nth_delay(initial, max, n) == min_int(2 * (initial * p), max));
        } else {
            assert(Backoff::nth_delay(initial, max, n) == min_int(2 * max, max));
            assert(initial * (2 * p) > max);
        }
    }
}

proof fn lemma_pow2_pos(n: nat)
    ensures
        pow2_spec(n) >= 1,
    decreases n,
{
    if n > 0 {
        lemma_pow2_pos((n - 1) as nat);
    }
}

} // verus!
