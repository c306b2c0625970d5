[package]
name = "tanvec_ai_cn"
version = "0.1.0"
edition = "2021"
publish = false

[dependencies]
anyhow = "1"
chrono = "0.4"
clap = { version = "4", features = ["derive"] }
deepseek-api = "*"
dotenvy = "*"
env_logger = "*"
futures-util = "0.3"
indexmap = { version = "2", features = ["serde"] }
indicatif = "*"
indicatif-log-bridge = "*"
log = "0.4"
reqwest = { version = "0.12", default-features = false, features = ["json", "multipart", "rustls-tls"] }
rust-ini = "*"
serde = { version = "1", features = ["derive"] }
serde_json = "1"
tokio = { version = "1", features = ["full"] }
zip = { version = "*", default-features = false, features = ["deflate"] }
