//! Session data model and the session-key resolution policy: scopes,
//! persisted entries, delivery contexts, the composite-key builder, and the
//! session-control message vocabulary.

use vstd::prelude::*;

verus! {

use vstd::string::StringExecFns;
use crate::strutil::{trim_spec, str_trim, str_eq};

/// View of an optional owned string as an optional character sequence.
pub open spec fn opt_view(o: Option<String>) -> Option<Seq<char>> {
    match o {
        Some(s) => Some(s@),
        None => None,
    }
}

/// How sessions are scoped when no explicit or composite key applies.
#[derive(Debug, Clone, PartialEq, Eq, Structural)]
pub enum SessionScope {
    PerSender,
    Global,
}

impl SessionScope {
    /// The wire/config label of the scope.
    pub fn scope_label(&self) -> (r: &'static str)
        ensures
            *self is PerSender ==> r@ == "per-sender"@,
            *self is Global ==> r@ == "global"@,
    {
        match self {
            SessionScope::PerSender => "per-sender",
            SessionScope::Global => "global",
        }
    }

    /// Parses a scope label; anything but "global" is the default
    /// per-sender scope.
    pub fn from_label(s: &str) -> (r: SessionScope)
        ensures
            r == (if s@ == "global"@ { SessionScope::Global } else { SessionScope::PerSender }),
    {
        if str_eq(s, "global") {
            SessionScope::Global
        } else {
            SessionScope::PerSender
        }
    }
}

/// Last-known reply route for a session.
pub struct DeliveryContext {
    pub channel: Option<String>,
    pub to: Option<String>,
    pub account_id: Option<String>,
    pub thread_id: Option<String>,
}

/// Mathematical model of a `DeliveryContext`.
pub struct CtxModel {
    pub channel: Option<Seq<char>>,
    pub to: Option<Seq<char>>,
    pub account_id: Option<Seq<char>>,
    pub thread_id: Option<Seq<char>>,
}

impl View for DeliveryContext {
    type V = CtxModel;

    open spec fn view(&self) -> CtxModel {
        CtxModel {
            channel: opt_view(self.channel),
            to: opt_view(self.to),
            account_id: opt_view(self.account_id),
            thread_id: opt_view(self.thread_id),
        }
    }
}

impl DeliveryContext {
    /// A field-for-field copy.
    pub fn duplicate(&self) -> (r: DeliveryContext)
        ensures
            r@ == self@,
    {
        DeliveryContext {
            channel: dup_opt(&self.channel),
            to: dup_opt(&self.to),
            account_id: dup_opt(&self.account_id),
            thread_id: dup_opt(&self.thread_id),
        }
    }
}

/// Copies an optional string, preserving its view.
pub fn dup_opt(o: &Option<String>) -> (r: Option<String>)
    ensures
        opt_view(r) == opt_view(*o),
{
    match o {
        Some(s) => Some(s.clone()),
        None => None,
    }
}

/// Persisted metadata record for one session key.
pub struct SessionEntry {
    pub session_id: String,
    pub updated_at: i64,
    pub session_file: Option<String>,
    pub delivery_context: Option<DeliveryContext>,
    pub last_channel: Option<String>,
    pub last_to: Option<String>,
    pub last_account_id: Option<String>,
    pub last_thread_id: Option<String>,
    pub webhook_message_id: Option<String>,
    pub webhook_session_id: Option<String>,
}

/// Mathematical model of a `SessionEntry`.
pub struct EntryModel {
    pub session_id: Seq<char>,
    pub updated_at: int,
    pub session_file: Option<Seq<char>>,
    pub delivery_context: Option<CtxModel>,
    pub last_channel: Option<Seq<char>>,
    pub last_to: Option<Seq<char>>,
    pub last_account_id: Option<Seq<char>>,
    pub last_thread_id: Option<Seq<char>>,
    pub webhook_message_id: Option<Seq<char>>,
    pub webhook_session_id: Option<Seq<char>>,
}

impl View for SessionEntry {
    type V = EntryModel;

    open spec fn view(&self) -> EntryModel {
        EntryModel {
            session_id: self.session_id@,
            updated_at: self.updated_at as int,
            session_file: opt_view(self.session_file),
            delivery_context: match self.delivery_context {
                Some(c) => Some(c@),
                None => None,
            },
            last_channel: opt_view(self.last_channel),
            last_to: opt_view(self.last_to),
            last_account_id: opt_view(self.last_account_id),
            last_thread_id: opt_view(self.last_thread_id),
            webhook_message_id: opt_view(self.webhook_message_id),
            webhook_session_id: opt_view(self.webhook_session_id),
        }
    }
}

impl SessionEntry {
    /// A field-for-field copy.
    pub fn duplicate(&self) -> (r: SessionEntry)
        ensures
            r@ == self@,
    {
        SessionEntry {
            session_id: self.session_id.clone(),
            updated_at: self.updated_at,
            session_file: dup_opt(&self.session_file),
            delivery_context: match &self.delivery_context {
                Some(c) => Some(c.duplicate()),
                None => None,
            },
            last_channel: dup_opt(&self.last_channel),
            last_to: dup_opt(&self.last_to),
            last_account_id: dup_opt(&self.last_account_id),
            last_thread_id: dup_opt(&self.last_thread_id),
            webhook_message_id: dup_opt(&self.webhook_message_id),
            webhook_session_id: dup_opt(&self.webhook_session_id),
        }
    }
}

/// Relies on `uuid::Uuid::new_v4` and its hyphenated `Display` form: a fresh
/// random (version 4) UUID rendered as 36 lowercase hexadecimal and hyphen
/// characters.  The value is random, so nothing is claimed beyond its length.
#[verifier::external_body]
pub fn generate_session_id() -> (r: String)
    ensures
        r@.len() == 36,
{
    uuid::Uuid::new_v4().to_string()
}

/// Relies on `chrono::Utc::now` / `DateTime::timestamp_millis`: the current
/// wall-clock time in milliseconds since the Unix epoch.  The clock can move
/// arbitrarily, so nothing is claimed about the value.
#[verifier::external_body]
pub fn current_timestamp() -> i64 {
    chrono::Utc::now().timestamp_millis()
}

/// Relies on `chrono::Utc::now` / `DateTime::timestamp_nanos_opt`: the
/// current wall-clock time in nanoseconds, or 0 when out of range.  Nothing
/// is claimed about the value.
#[verifier::external_body]
pub fn current_timestamp_nanos() -> i64 {
    chrono::Utc::now().timestamp_nanos_opt().unwrap_or(0)
}

/// Normalizes a session key: trimmed, used verbatim otherwise.
pub fn normalize_session_key(key: &str) -> (r: String)
    ensures
        r@ == trim_spec(key@),
{
    String::from_str(str_trim(key))
}

/// Inbound message fields that drive scope-fallback key resolution.
pub struct WebhookMessage {
    pub id: String,
    pub content: String,
    pub session: Option<String>,
}

/// Mathematical model of the scope-fallback input.
pub struct WebhookMessageModel {
    pub id: Seq<char>,
    pub content: Seq<char>,
    pub session: Option<Seq<char>>,
}

impl View for WebhookMessage {
    type V = WebhookMessageModel;

    open spec fn view(&self) -> WebhookMessageModel {
        WebhookMessageModel {
            id: self.id@,
            content: self.content@,
            session: opt_view(self.session),
        }
    }
}

/// The scope-fallback key: the constant key under the global scope, a key
/// derived from the raw inbound message id under the per-sender scope.
pub open spec fn fallback_key_spec(scope: SessionScope, id: Seq<char>) -> Seq<char> {
    match scope {
        SessionScope::Global => "global"@,
        SessionScope::PerSender => "webhook:"@ + id,
    }
}

/// Resolves the scope-fallback session key for a message.
pub fn resolve_session_key(scope: &SessionScope, msg: &WebhookMessage) -> (r: String)
    ensures
        r@ == fallback_key_spec(*scope, msg.id@),
{
    match scope {
        SessionScope::Global => String::from_str("global"),
        SessionScope::PerSender => String::from_str("webhook:").concat(msg.id.as_str()),
    }
}

/// Peer-derived parameters for the composite session key.
pub struct WebhookSessionParams {
    pub agent_id: String,
    pub peer_kind: String,
    pub peer_id: String,
    pub topic_id: Option<String>,
    pub thread_id: Option<String>,
}

/// Mathematical model of the composite-key parameters.
pub struct ParamsModel {
    pub agent_id: Seq<char>,
    pub peer_kind: Seq<char>,
    pub peer_id: Seq<char>,
    pub topic_id: Option<Seq<char>>,
    pub thread_id: Option<Seq<char>>,
}

impl View for WebhookSessionParams {
    type V = ParamsModel;

    open spec fn view(&self) -> ParamsModel {
        ParamsModel {
            agent_id: self.agent_id@,
            peer_kind: self.peer_kind@,
            peer_id: self.peer_id@,
            topic_id: opt_view(self.topic_id),
            thread_id: opt_view(self.thread_id),
        }
    }
}

/// An optional `:`-prefixed suffix, appended only when present and non-empty.
pub open spec fn opt_suffix_spec(o: Option<Seq<char>>) -> Seq<char> {
    match o {
        Some(t) => if t.len() > 0 {
            ":"@ + t
        } else {
            Seq::<char>::empty()
        },
        None => Seq::<char>::empty(),
    }
}

/// The composite session key `webhook:<agentId>:<peerKind>:<peerId>` with
/// optional topic and thread suffixes, built only when both peer kind and
/// peer id are non-empty.
pub open spec fn composite_key_spec(p: ParamsModel) -> Option<Seq<char>> {
    if p.peer_kind.len() == 0 || p.peer_id.len() == 0 {
        None
    } else {
        Some(
            "webhook:"@ + p.agent_id + ":"@ + p.peer_kind + ":"@ + p.peer_id
                + opt_suffix_spec(p.topic_id) + opt_suffix_spec(p.thread_id),
        )
    }
}

/// Whether an optional string equals an optional character sequence.
pub open spec fn opt_str_eq(r: Option<String>, m: Option<Seq<char>>) -> bool {
    match (r, m) {
        (Some(a), Some(b)) => a@ == b,
        (None, None) => true,
        _ => false,
    }
}

/// Builds the composite session key from peer parameters.
pub fn build_webhook_session_key(params: &WebhookSessionParams) -> (r: Option<String>)
    ensures
        opt_str_eq(r, composite_key_spec(params@)),
{
    if params.peer_kind.as_str().is_empty() || params.peer_id.as_str().is_empty() {
        return None;
    }
    let mut key = String::from_str("webhook:");
    key.append(params.agent_id.as_str());
    key.append(":");
    key.append(params.peer_kind.as_str());
    key.append(":");
    key.append(params.peer_id.as_str());
    if let Some(topic_id) = &params.topic_id {
        if !topic_id.as_str().is_empty() {
            key.append(":");
            key.append(topic_id.as_str());
        }
    }
    if let Some(thread_id) = &params.thread_id {
        if !thread_id.as_str().is_empty() {
            key.append(":");
            key.append(thread_id.as_str());
        }
    }
    proof {
        assert(key@ =~= composite_key_spec(params@)->Some_0);
    }
    Some(key)
}

/// Session control message kinds.
#[derive(Debug, Clone, PartialEq, Eq, Structural)]
pub enum ControlMessageType {
    SessionGet,
    SessionList,
    SessionReset,
    SessionDelete,
}

/// The control kind named by a wire `type` string, if any.
pub open spec fn control_type_spec(s: Seq<char>) -> Option<ControlMessageType> {
    if s == "session.get"@ {
        Some(ControlMessageType::SessionGet)
    } else if s == "session.list"@ {
        Some(ControlMessageType::SessionList)
    } else if s == "session.reset"@ {
        Some(ControlMessageType::SessionReset)
    } else if s == "session.delete"@ {
        Some(ControlMessageType::SessionDelete)
    } else {
        None
    }
}

/// Classifies a wire `type` string as a session control kind.
pub fn control_type_from_str(s: &str) -> (r: Option<ControlMessageType>)
    ensures
        r == control_type_spec(s@),
{
    if str_eq(s, "session.get") {
        Some(ControlMessageType::SessionGet)
    } else if str_eq(s, "session.list") {
        Some(ControlMessageType::SessionList)
    } else if str_eq(s, "session.reset") {
        Some(ControlMessageType::SessionReset)
    } else if str_eq(s, "session.delete") {
        Some(ControlMessageType::SessionDelete)
    } else {
        None
    }
}

/// A parsed session control envelope.
pub struct SessionControlMessage {
    pub msg_type: ControlMessageType,
    pub key: Option<String>,
    pub id: Option<String>,
}

/// One session summarized for a control response.
pub struct SessionInfoResponse {
    pub key: String,
    pub session_id: String,
    pub updated_at: i64,
    pub delivery_context: Option<DeliveryContext>,
    pub last_channel: Option<String>,
    pub last_to: Option<String>,
}

/// A list of session summaries with its count.
pub struct SessionListResponse {
    pub sessions: Vec<SessionInfoResponse>,
    pub count: usize,
}

impl SessionListResponse {
    /// Packages summaries with a count that always matches their number.
    pub fn new(sessions: Vec<SessionInfoResponse>) -> (r: SessionListResponse)
        ensures
            r.count == r.sessions@.len(),
            r.sessions@ == sessions@,
    {
        let count = sessions.len();
        SessionListResponse { sessions, count }
    }
}

} // verus!
