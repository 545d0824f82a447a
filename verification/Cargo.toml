[package]
name = "voicemcu"
version = "0.1.0"
edition = "2021"
publish = false

[dependencies]
audiopus = "=0.3.0-rc.0"
bytes = "=1.12.1"
clap = { version = "=4.6.7", features = ["derive"] }
cpal = "=0.15.3"
crossterm = { version = "=0.28.1", features = ["event-stream"] }
dashmap = "=6.2.1"
futures-core = "=0.3.34"
postcard = { version = "=1.1.3", default-features = false, features = ["alloc"] }
quinn = { version = "=0.11.12", default-features = false, features = ["runtime-tokio", "rustls-ring"] }
ratatui = { version = "=0.29.0", default-features = false, features = ["crossterm"] }
rcgen = "=0.13.2"
ring = "=0.17.14"
ringbuf = "=0.4.8"
rustls = { version = "=0.23.46", default-features = false, features = ["ring", "std", "tls12"] }
rustls-pemfile = "=2.2.0"
serde = { version = "=1.0.229", features = ["derive"] }
thiserror = "=2.0.21"
tokio = { version = "=1.54.1", features = ["rt-multi-thread", "macros", "sync", "time", "io-util", "signal", "net"] }
toml = "=0.8.23"
tracing = "=0.1.44"
tracing-subscriber = { version = "=0.3.23", features = ["env-filter"] }

[dev-dependencies]
quinn-proto = { version = "=0.11.19", default-features = false, features = ["rustls-ring"] }
