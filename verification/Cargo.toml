[package]
name = "masterbus-tools"
version = "0.1.0"
edition = "2021"
publish = false

[dependencies]
serde = { version = "1", features = ["derive"] }
serde_json = "1"
toml = "*"
axum = "*"
tokio = { version = "1", features = ["macros", "net", "rt-multi-thread"] }
env_logger = "*"
crossbeam-channel = "*"
