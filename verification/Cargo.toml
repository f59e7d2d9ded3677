[package]
name = "verix"
version = "0.1.0"
edition = "2021"
publish = false

[dependencies]
openssl = "0.10"
rand = "0.8"
bincode = "1"
serde = { version = "1", features = ["derive"] }
serde_json = "1"
axum = "0.6"
reqwest = "0.11"
tokio = { version = "1", features = ["full"] }
tracing = "0.1"
tracing-subscriber = "0.3"
lazy_static = "1"
