//! Configuration assembly: the validated bridge configuration built from
//! the two on-disk documents' plain values, with its defaults.  Reading
//! those documents happens outside the library.

use vstd::prelude::*;

verus! {

use vstd::string::StringExecFns;
use crate::sessions::opt_view;

/// The validated bridge configuration.
pub struct Config {
    pub webhook_url: String,
    pub openclaw: OpenClawConfig,
    pub uid: String,
    pub session_store_path: String,
    pub session_scope: String,
}

/// Gateway endpoint settings.
pub struct OpenClawConfig {
    pub gateway_port: u16,
    pub gateway_token: String,
    pub agent_id: String,
}

/// The bridge document's fields, as read from disk.
pub struct BridgeJSON {
    pub webhook_url: String,
    pub agent_id: Option<String>,
    pub uid: Option<String>,
}

/// Configuration failures are fatal and happen only at startup.
#[derive(Debug)]
pub enum ConfigError {
    MissingWebhookUrl,
}

impl ConfigError {
    /// A human-readable description of the error.
    pub fn message(&self) -> (r: String)
        ensures
            r@ == "webhook_url is required in the bridge configuration"@,
    {
        String::from_str("webhook_url is required in the bridge configuration")
    }
}

/// Assembles the configuration from the documents' plain values: a missing
/// webhook URL is rejected; the agent id defaults to "main", the port to
/// 18789, the uid to the freshly generated one, and the scope to
/// per-sender.
pub fn build_config(
    br: BridgeJSON,
    gateway_port: Option<u16>,
    gateway_token: String,
    store_path: String,
    fresh_uid: String,
) -> (r: Result<Config, ConfigError>)
    ensures
        br.webhook_url@.len() == 0 <==> r is Err,
        r is Err ==> r->Err_0 is MissingWebhookUrl,
        r matches Ok(cfg) ==> {
            &&& cfg.webhook_url@ == br.webhook_url@
            &&& cfg.openclaw.agent_id@ == (match opt_view(br.agent_id) {
                Some(a) => a,
                None => "main"@,
            })
            &&& cfg.openclaw.gateway_port == (match gateway_port {
                Some(p) => p,
                None => 18789u16,
            })
            &&& cfg.openclaw.gateway_token@ == gateway_token@
            &&& cfg.uid@ == (match opt_view(br.uid) {
                Some(u) => u,
                None => fresh_uid@,
            })
            &&& cfg.session_store_path@ == store_path@
            &&& cfg.session_scope@ == "per-sender"@
        },
{
    if br.webhook_url.as_str().is_empty() {
        return Err(ConfigError::MissingWebhookUrl);
    }
    let agent_id = match br.agent_id {
        Some(a) => a,
        None => String::from_str("main"),
    };
    let uid = match br.uid {
        Some(u) => u,
        None => fresh_uid,
    };
    let gateway_port = match gateway_port {
        Some(p) => p,
        None => 18789,
    };
    Ok(Config {
        webhook_url: br.webhook_url,
        openclaw: OpenClawConfig { gateway_port, gateway_token, agent_id },
        uid,
        session_store_path: store_path,
        session_scope: String::from_str("per-sender"),
    })
}

/// The banner line naming the bridge's uid.
pub fn get_display_uid(cfg: &Config) -> (r: String)
    ensures
        r@ == "Bridge UID: "@ + cfg.uid@,
{
    String::from_str("Bridge UID: ").concat(cfg.uid.as_str())
}

} // verus!
