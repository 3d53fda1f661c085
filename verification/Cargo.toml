[package]
name = "raft"
version = "0.1.0"
edition = "2021"
publish = false

[dependencies]
rand = "0.8"
serde = { version = "1", features = ["derive"] }
serde_json = "1"
tokio = { version = "1", features = ["full"] }
tokio-util = { version = "0.6", features = ["codec"] }
tonic = "0.5"
async-raft = "0.6"
anyhow = "1"
thiserror = "1"
bytes = "1"
futures = "0.3"
