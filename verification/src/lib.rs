//! Core of a self-hosted group voice chat: wire protocol, jitter buffering,
//! rate limiting, room moderation, mix routing and the terminal client's
//! state, each with a machine-checked contract.

pub mod agreement;
pub mod client;
pub mod common;
pub mod server;
