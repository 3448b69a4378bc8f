[package]
name = "inode"
version = "0.1.0"
edition = "2021"
publish = false

[dependencies]
rand = "=0.10.3"
sha2 = "=0.10.9"
hex = "0.4"
serde = { version = "1", features = ["derive"] }
serde_json = "1"
bincode = "1"
anyhow = "1"
tracing = "0.1"
tracing-subscriber = { version = "0.3", features = ["env-filter"] }
dotenvy = "0.15"
tokio = { version = "1", features = ["full"] }
reqwest = { version = "0.12", default-features = false, features = ["json"] }
