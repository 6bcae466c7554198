[package]
name = "nekocode"
version = "0.1.0"
edition = "2021"
publish = false

[dependencies]
serde = { version = "1", features = ["derive"] }
serde_json = "1"
serde_yaml = "0.9"
toml = "0.8"
reqwest = { version = "0.12", default-features = false, features = ["stream"] }
tokio = { version = "1", features = ["io-util", "rt", "macros", "sync", "time", "fs", "process"] }
tokio-util = { version = "0.7", features = ["io"] }
tokio-stream = "0.1"
async-stream = "0.3"
futures-util = "0.3"
jiff = "0.2"
dirs = "6"
anyhow = "1"
thiserror = "2"
tracing = "0.1"
async-trait = "0.1"
dashmap = "6"
