//! Verified core of the Telegram phone remote for the Gork agent: the
//! allowlist, the notes queue, the agent's JSON-RPC messages, the Telegram
//! cards and keyboards, the session picker and the remote's decisions.
pub mod text;
pub mod json;
pub mod acp;
pub mod telegram;
pub mod ui;
pub mod auth;
pub mod notes;
pub mod sessions;
pub mod runtime;

pub use auth::AuthPolicy;
pub use runtime::RuntimeConfig;
