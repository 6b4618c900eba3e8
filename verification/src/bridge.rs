//! The orchestrator's decision rules: classifying each inbound webhook
//! message, resolving its session key (explicit key, then composite peer
//! key, then scope fallback), detecting reset triggers, deriving the
//! delivery context, and planning what to forward, reset, or drop.

use vstd::prelude::*;

verus! {

use vstd::string::StringExecFns;
use crate::strutil::{trim_spec, str_trim, str_eq, string_push};
use crate::sessions::{
    CtxModel, DeliveryContext, SessionScope, WebhookSessionParams, ParamsModel, opt_view, dup_opt,
    composite_key_spec, fallback_key_spec, build_webhook_session_key, resolve_session_key,
};
use crate::commands::is_command_spec;

/// An inbound conversational message, as decoded off the wire; absent
/// fields arrive as `None`.
pub struct WebhookMessage {
    pub id: String,
    pub content: String,
    pub session: Option<String>,
    pub peer_kind: Option<String>,
    pub peer_id: Option<String>,
    pub chat_type: Option<String>,
    pub chat_id: Option<String>,
    pub sender_id: Option<String>,
    pub topic_id: Option<String>,
    pub thread_id: Option<String>,
    pub msg_type: Option<String>,
}

/// Mathematical model of an inbound message.
pub struct InboundModel {
    pub id: Seq<char>,
    pub content: Seq<char>,
    pub session: Option<Seq<char>>,
    pub peer_kind: Option<Seq<char>>,
    pub peer_id: Option<Seq<char>>,
    pub chat_type: Option<Seq<char>>,
    pub chat_id: Option<Seq<char>>,
    pub sender_id: Option<Seq<char>>,
    pub topic_id: Option<Seq<char>>,
    pub thread_id: Option<Seq<char>>,
    pub msg_type: Option<Seq<char>>,
}

impl View for WebhookMessage {
    type V = InboundModel;

    open spec fn view(&self) -> InboundModel {
        InboundModel {
            id: self.id@,
            content: self.content@,
            session: opt_view(self.session),
            peer_kind: opt_view(self.peer_kind),
            peer_id: opt_view(self.peer_id),
            chat_type: opt_view(self.chat_type),
            chat_id: opt_view(self.chat_id),
            sender_id: opt_view(self.sender_id),
            topic_id: opt_view(self.topic_id),
            thread_id: opt_view(self.thread_id),
            msg_type: opt_view(self.msg_type),
        }
    }
}

/// A candidate field after trimming: present only when non-empty.
pub open spec fn otrim_spec(o: Option<Seq<char>>) -> Option<Seq<char>> {
    match o {
        Some(s) => if trim_spec(s).len() > 0 {
            Some(trim_spec(s))
        } else {
            None
        },
        None => None,
    }
}

/// First non-empty trimmed candidate of two.
pub open spec fn coalesce2_spec(a: Option<Seq<char>>, b: Option<Seq<char>>) -> Option<Seq<char>> {
    if otrim_spec(a) is Some {
        otrim_spec(a)
    } else {
        otrim_spec(b)
    }
}

/// First non-empty trimmed candidate of three.
pub open spec fn coalesce3_spec(
    a: Option<Seq<char>>,
    b: Option<Seq<char>>,
    c: Option<Seq<char>>,
) -> Option<Seq<char>> {
    if otrim_spec(a) is Some {
        otrim_spec(a)
    } else {
        coalesce2_spec(b, c)
    }
}

/// Trims an optional field, keeping it only when non-empty.
pub fn otrim<'a>(o: &'a Option<String>) -> (r: Option<&'a str>)
    ensures
        match r {
            Some(t) => otrim_spec(opt_view(*o)) == Some(t@),
            None => otrim_spec(opt_view(*o)) is None,
        },
{
    match o {
        Some(s) => {
            let t = str_trim(s.as_str());
            if t.unicode_len() > 0 {
                Some(t)
            } else {
                None
            }
        },
        None => None,
    }
}

/// The session-key resolution policy, first matching rule winning: the
/// explicit key (trimmed, when non-empty), then the composite peer key,
/// then the scope fallback.
pub open spec fn resolve_key_spec(
    m: InboundModel,
    agent_id: Seq<char>,
    scope: SessionScope,
) -> Seq<char> {
    match otrim_spec(m.session) {
        Some(s) => s,
        None => {
            let kind = coalesce2_spec(m.peer_kind, m.chat_type);
            let pid = coalesce3_spec(m.peer_id, m.chat_id, m.sender_id);
            match (kind, pid) {
                (Some(k), Some(p)) => match composite_key_spec(
                    ParamsModel {
                        agent_id: agent_id,
                        peer_kind: k,
                        peer_id: p,
                        topic_id: m.topic_id,
                        thread_id: m.thread_id,
                    },
                ) {
                    Some(key) => key,
                    None => fallback_key_spec(scope, m.id),
                },
                _ => fallback_key_spec(scope, m.id),
            }
        },
    }
}

/// Law: every resolved session key is non-empty — an explicit key is used
/// only when its trimmed form is non-empty, composite keys carry their
/// prefix, and both scope fallbacks are non-empty.
pub proof fn lemma_resolved_key_nonempty(
    m: InboundModel,
    agent_id: Seq<char>,
    scope: SessionScope,
)
    ensures
        resolve_key_spec(m, agent_id, scope).len() > 0,
{
    reveal_strlit("global");
    reveal_strlit("webhook:");
    assert("global"@.len() == 6);
    assert("webhook:"@.len() == 8);
}

/// Resolves the session key for an inbound message.
pub fn resolve_message_session_key(
    msg: &WebhookMessage,
    agent_id: &str,
    scope: &SessionScope,
) -> (r: String)
    ensures
        r@ == resolve_key_spec(msg@, agent_id@, *scope),
{
    if let Some(t) = otrim(&msg.session) {
        return String::from_str(t);
    }
    let kind = otrim(&msg.peer_kind);
    let kind = match kind {
        Some(k) => Some(k),
        None => otrim(&msg.chat_type),
    };
    let pid = match otrim(&msg.peer_id) {
        Some(p) => Some(p),
        None => match otrim(&msg.chat_id) {
            Some(p) => Some(p),
            None => otrim(&msg.sender_id),
        },
    };
    if let (Some(k), Some(p)) = (kind, pid) {
        let params = WebhookSessionParams {
            agent_id: String::from_str(agent_id),
            peer_kind: String::from_str(k),
            peer_id: String::from_str(p),
            topic_id: dup_opt(&msg.topic_id),
            thread_id: dup_opt(&msg.thread_id),
        };
        if let Some(key) = build_webhook_session_key(&params) {
            return key;
        }
    }
    let fallback_input = crate::sessions::WebhookMessage {
        id: msg.id.clone(),
        content: msg.content.clone(),
        session: dup_opt(&msg.session),
    };
    resolve_session_key(scope, &fallback_input)
}

/// Delivery-thread resolution, separate from the key: a direct message
/// replies on its thread; a group or channel prefers the topic, then the
/// thread; anything else carries none.
pub open spec fn delivery_thread_spec(m: InboundModel) -> Option<Seq<char>> {
    match coalesce2_spec(m.peer_kind, m.chat_type) {
        Some(kind) => if kind == "dm"@ {
            m.thread_id
        } else if kind == "group"@ || kind == "channel"@ {
            if m.topic_id is Some {
                m.topic_id
            } else {
                m.thread_id
            }
        } else {
            None
        },
        None => None,
    }
}

/// Resolves the delivery thread id for an inbound message.
pub fn resolve_delivery_thread_id(msg: &WebhookMessage) -> (r: Option<String>)
    ensures
        opt_view(r) == delivery_thread_spec(msg@),
{
    let kind = match otrim(&msg.peer_kind) {
        Some(k) => Some(k),
        None => otrim(&msg.chat_type),
    };
    match kind {
        Some(k) => {
            if str_eq(k, "dm") {
                dup_opt(&msg.thread_id)
            } else if str_eq(k, "group") || str_eq(k, "channel") {
                match &msg.topic_id {
                    Some(t) => Some(t.clone()),
                    None => dup_opt(&msg.thread_id),
                }
            } else {
                None
            }
        },
        None => None,
    }
}

/// The delivery context an inbound message snapshots: the reply channel,
/// the peer (or the message id), the bridge account, and the thread.
pub open spec fn delivery_ctx_spec(m: InboundModel, uid: Seq<char>) -> CtxModel {
    CtxModel {
        channel: Some("webhook"@),
        to: Some(
            match m.peer_id {
                Some(p) => p,
                None => m.id,
            },
        ),
        account_id: Some(uid),
        thread_id: delivery_thread_spec(m),
    }
}

/// Builds the delivery context for an inbound message.
pub fn build_delivery_context(msg: &WebhookMessage, uid: &str) -> (r: DeliveryContext)
    ensures
        r@ == delivery_ctx_spec(msg@, uid@),
{
    let to = match &msg.peer_id {
        Some(p) => p.clone(),
        None => msg.id.clone(),
    };
    DeliveryContext {
        channel: Some(String::from_str("webhook")),
        to: Some(to),
        account_id: Some(String::from_str(uid)),
        thread_id: resolve_delivery_thread_id(msg),
    }
}

/// Reset triggers: the exact tokens that discard continuity.
pub open spec fn reset_trigger_spec(t: Seq<char>) -> bool {
    t == "/new"@ || t == "/reset"@
}

/// Whether trimmed content is a reset trigger, alone or followed by a
/// space and remaining text.
pub open spec fn is_reset_spec(content: Seq<char>) -> bool {
    let t = trim_spec(content);
    ||| reset_trigger_spec(t)
    ||| (t.len() >= 5 && t.subrange(0, 5) == "/new "@)
    ||| (t.len() >= 7 && t.subrange(0, 7) == "/reset "@)
}

/// The content left to forward once a reset trigger is stripped: nothing
/// for a bare trigger, the trimmed remainder for a trigger with trailing
/// text, the content itself otherwise.
pub open spec fn strip_reset_spec(content: Seq<char>) -> Seq<char> {
    let t = trim_spec(content);
    if reset_trigger_spec(t) {
        Seq::empty()
    } else if t.len() >= 5 && t.subrange(0, 5) == "/new "@ {
        trim_spec(t.subrange(5, t.len() as int))
    } else if t.len() >= 7 && t.subrange(0, 7) == "/reset "@ {
        trim_spec(t.subrange(7, t.len() as int))
    } else {
        content
    }
}

/// Whether a trimmed string starts with the given prefix.
fn has_prefix(t: &str, p: &str) -> (b: bool)
    ensures
        b == (t@.len() >= p@.len() && t@.subrange(0, p@.len() as int) == p@),
{
    let n = p.unicode_len();
    if t.unicode_len() < n {
        return false;
    }
    let head = t.substring_char(0, n);
    str_eq(head, p)
}

/// Whether content triggers a session reset.
pub fn is_reset_trigger(content: &str) -> (b: bool)
    ensures
        b == is_reset_spec(content@),
{
    proof {
        reveal_strlit("/new ");
        reveal_strlit("/reset ");
    }
    let t = str_trim(content);
    str_eq(t, "/new") || str_eq(t, "/reset") || has_prefix(t, "/new ") || has_prefix(t, "/reset ")
}

/// Strips a reset trigger from content, leaving what is forwarded.
pub fn strip_reset_trigger(content: &str) -> (r: String)
    ensures
        r@ == strip_reset_spec(content@),
{
    proof {
        reveal_strlit("/new ");
        reveal_strlit("/reset ");
    }
    let t = str_trim(content);
    if str_eq(t, "/new") || str_eq(t, "/reset") {
        return String::new();
    }
    if has_prefix(t, "/new ") {
        let rest = t.substring_char(5, t.unicode_len());
        return String::from_str(str_trim(rest));
    }
    if has_prefix(t, "/reset ") {
        let rest = t.substring_char(7, t.unicode_len());
        return String::from_str(str_trim(rest));
    }
    String::from_str(content)
}

/// What the orchestrator decided for one inbound conversational message.
pub enum InboundAction {
    DropControlType,
    DropEmpty,
    Command(String),
    Forward { session_key: String, content: String, reset: bool, delivery: DeliveryContext },
}

/// Mathematical model of an inbound decision.
pub enum ActionModel {
    DropControlType,
    DropEmpty,
    Command(Seq<char>),
    Forward { session_key: Seq<char>, content: Seq<char>, reset: bool, delivery: CtxModel },
}

impl View for InboundAction {
    type V = ActionModel;

    open spec fn view(&self) -> ActionModel {
        match self {
            InboundAction::DropControlType => ActionModel::DropControlType,
            InboundAction::DropEmpty => ActionModel::DropEmpty,
            InboundAction::Command(t) => ActionModel::Command(t@),
            InboundAction::Forward { session_key, content, reset, delivery } =>
                ActionModel::Forward {
                session_key: session_key@,
                content: content@,
                reset: *reset,
                delivery: delivery@,
            },
        }
    }
}

/// Internal control chatter that is dropped outright.
pub open spec fn is_control_chatter_spec(t: Option<Seq<char>>) -> bool {
    match t {
        Some(x) => x == "connected"@ || x == "error"@ || x == "event"@,
        None => false,
    }
}

/// The orchestrator's classification of one inbound message: control
/// chatter and empty content are dropped, commands go to the command
/// collaborator, and everything else is forwarded under its resolved key,
/// reset-stripped when a reset trigger led the content.
pub open spec fn plan_spec(
    m: InboundModel,
    agent_id: Seq<char>,
    scope: SessionScope,
    uid: Seq<char>,
) -> ActionModel {
    if is_control_chatter_spec(m.msg_type) {
        ActionModel::DropControlType
    } else if m.content.len() == 0 {
        ActionModel::DropEmpty
    } else if is_command_spec(m.content) {
        ActionModel::Command(trim_spec(m.content))
    } else {
        let key = resolve_key_spec(m, agent_id, scope);
        let reset = is_reset_spec(m.content);
        ActionModel::Forward {
            session_key: key,
            content: if reset {
                strip_reset_spec(m.content)
            } else {
                m.content
            },
            reset: reset,
            delivery: delivery_ctx_spec(m, uid),
        }
    }
}

/// Classifies one inbound conversational message.
pub fn plan_webhook_message(
    msg: &WebhookMessage,
    agent_id: &str,
    scope: &SessionScope,
    uid: &str,
) -> (r: InboundAction)
    ensures
        r@ == plan_spec(msg@, agent_id@, *scope, uid@),
{
    let chatter = match &msg.msg_type {
        Some(x) => str_eq(x.as_str(), "connected") || str_eq(x.as_str(), "error") || str_eq(
            x.as_str(),
            "event",
        ),
        None => false,
    };
    if chatter {
        return InboundAction::DropControlType;
    }
    if msg.content.as_str().is_empty() {
        return InboundAction::DropEmpty;
    }
    if crate::commands::is_command(msg.content.as_str()) {
        return InboundAction::Command(String::from_str(str_trim(msg.content.as_str())));
    }
    let key = resolve_message_session_key(msg, agent_id, scope);
    let reset = is_reset_trigger(msg.content.as_str());
    let content = if reset {
        strip_reset_trigger(msg.content.as_str())
    } else {
        msg.content.clone()
    };
    let delivery = build_delivery_context(msg, uid);
    InboundAction::Forward { session_key: key, content, reset, delivery }
}

} // verus!
