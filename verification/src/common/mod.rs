//! Parts shared by the server and the client.

pub mod bytes;
pub mod codec;
pub mod delivery;
pub mod error;
pub mod hex;
pub mod jitter;
pub mod options;
pub mod protocol;
pub mod signal;
pub mod text;
pub mod wire;
