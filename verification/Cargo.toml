[package]
name = "warzone_sentinel"
version = "0.1.0"
edition = "2021"
publish = false

[dependencies]
axum = "*"
base64 = "0.22"
parking_lot = "*"
rand = "0.8"
reqwest = { version = "0.12", default-features = false, features = ["json"] }
serde = { version = "1", features = ["derive"] }
serde_json = "1"
tokio = { version = "1", features = ["full"] }
tracing = "0.1"
tracing-subscriber = { version = "0.3", features = ["env-filter"] }
url = "2"
urlencoding = "2"
zstd = "*"
