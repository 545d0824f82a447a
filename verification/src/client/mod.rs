//! The client's rules: configuration, certificate pinning, streams, terminal.

pub mod audio_io;
pub mod commands;
pub mod config;
pub mod roster;
pub mod screen;
pub mod stream;
pub mod tls;
pub mod tui;
