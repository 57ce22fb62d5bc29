[package]
name = "poker_core"
version = "0.1.0"
edition = "2021"
publish = false

[dependencies]
rand = "=0.8.8"
uuid = { version = "=1.27.0", features = ["v4", "serde"] }
chrono = "=0.4.45"
tokio-util = "=0.7.19"
dashmap = "6"
tokio = { version = "1", features = ["full"] }
serde = { version = "1", features = ["derive"] }
serde_json = "1"
anyhow = "1"
thiserror = "1"
argon2 = "0.5"
jsonwebtoken = "9"
secrecy = "*"
sha2 = "0.10"
hex = "0.4"
base64 = "0.22"
num_cpus = "1"
tracing = "0.1"
tracing-subscriber = { version = "0.3", features = ["env-filter"] }
futures = "0.3"
