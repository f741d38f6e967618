[package]
name = "agent_daemon"
version = "0.1.0"
edition = "2021"
publish = false

[dependencies]
async-nats = "*"
clap = { version = "4", features = ["derive"] }
dirs = "*"
futures-util = "*"
rusqlite = { version = "*", features = ["bundled"] }
serde = { version = "1", features = ["derive"] }
serde_json = "1"
thiserror = "*"
tokio = { version = "1", features = ["full"] }
toml = "*"
tracing = "0.1"
tracing-subscriber = { version = "0.3", features = ["env-filter", "json"] }
