[package]
name = "codex_tui"
version = "0.1.0"
edition = "2021"
publish = false

[dependencies]
serde = { version = "1", features = ["derive"] }
serde_json = "1"
tokio = { version = "1", features = ["fs", "process", "time"] }
ratatui = { version = "0.29", default-features = false }
tracing = "0.1"

[dev-dependencies]
syntect = { version = "5", default-features = false, features = ["plist-load"] }
