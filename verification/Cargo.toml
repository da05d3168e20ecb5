[package]
name = "session_server"
version = "0.1.0"
edition = "2021"
publish = false

[dependencies]
chrono = "0.4"
tokio = { version = "1", features = ["rt-multi-thread", "net", "sync", "macros"] }
redis = "*"
serde_json = "1"
log = "0.4"
env_logger = "*"
futures = "0.3"
