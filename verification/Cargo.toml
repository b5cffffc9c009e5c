[package]
name = "rootmode_desktop"
version = "0.1.5"
edition = "2021"
publish = false

[dependencies]
base64 = "0.22"
hex = "0.4"
k256 = { version = "0.13", features = ["ecdsa"] }
rand = "0.8"
serde_json = "1"
sha2 = "0.10"
url = "2"
png = "0.17"
uuid = { version = "1", features = ["v4", "serde"] }
serde = { version = "1", features = ["derive"] }
thiserror = "1"
log = "0.4"
dirs = "5"
chrono = "0.4"
async-trait = "0.1"
futures-util = "0.3"
tokio = { version = "1", features = ["macros", "net", "rt-multi-thread", "sync", "time"] }
axum = "0.7"
tokio-tungstenite = "0.24"
reqwest = { version = "0.12", default-features = false, features = ["json"] }
rusqlite = { version = "0.32", features = ["bundled"] }
tracing = "0.1"
tracing-subscriber = { version = "0.3", features = ["env-filter"] }
pdf-extract = "0.7"
