[package]
name = "rust_claw"
version = "0.1.0"
edition = "2021"
publish = false

[dependencies]
base64 = "0.22"
chrono = "0.4"
chrono-tz = "0.10"
clap = { version = "4", features = ["derive", "env"] }
cron = "0.15"
fs2 = "0.4"
hmac = "0.12"
iana-time-zone = "0.1"
regex = "1"
reqwest = { version = "0.12", default-features = false, features = ["rustls-tls"] }
rusqlite = { version = "0.32", features = ["bundled"] }
serde = { version = "1", features = ["derive"] }
serde_json = "1"
serenity = { version = "0.12", default-features = false, features = ["client", "gateway", "rustls_backend", "model", "cache"] }
sha2 = "0.10"
tokio = { version = "1", features = ["full"] }
urlencoding = "2"
uuid = { version = "1", features = ["v4"] }
