//! Verified core of a bridge that joins a webhook delivery channel to an
//! agent gateway.  The library holds the session-key resolution policy, a
//! persistent session store with a TTL cache and its JSON document codec,
//! the upstream-to-downstream protocol translator, reconnect backoff, the
//! command handler, and the orchestration rules that decide what to
//! forward, reset, or drop.  Network and file I/O live outside the library
//! and hand it plain values.

pub mod bridge;
pub mod codec;
pub mod config;
pub mod commands;
pub mod frames;
pub mod resilient;
pub mod translate;
pub mod sessions;
pub mod store;
pub mod strutil;
