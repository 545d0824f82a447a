//! The server's rules: rooms, sessions, mixing, rate limits, configuration.

pub mod config;
pub mod hearing;
pub mod membership;
pub mod mix;
pub mod moderation;
pub mod rate;
pub mod room;
pub mod session;
pub mod tls;
