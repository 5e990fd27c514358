[package]
name = "e_agent"
version = "0.1.0"
edition = "2021"
publish = false

[dependencies]
unicode-width = "=0.2.0"
sha2 = "=0.10.9"
anyhow = "=1.0.104"
serde = { version = "=1.0.229", features = ["derive"] }
serde_json = "=1.0.154"
tokio = { version = "=1.54.1", features = ["sync", "time", "rt", "macros"] }
crossterm = { version = "=0.28.1", features = ["event-stream"] }
ratatui = { version = "=0.29.0", features = ["unstable-rendered-line-info"] }
pulldown-cmark = "=0.12.2"
futures-util = "=0.3.34"
dashmap = "6"
tracing = "0.1"
