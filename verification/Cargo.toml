[package]
name = "proxylb"
version = "0.1.0"
edition = "2021"
publish = false

[dependencies]
serde_json = "1"
serde = { version = "1", features = ["derive"] }
serde_yaml = "0.9"
axum = "0.7"
tokio = { version = "1", features = ["rt-multi-thread", "macros", "net", "sync"] }
reqwest = { version = "0.12", default-features = false }
env_logger = "0.11"
tracing = "0.1"
