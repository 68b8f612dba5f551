[package]
name = "vergissmeinnicht"
version = "0.1.0"
edition = "2021"
publish = false

[dependencies]
chrono = "=0.4.45"
uuid = { version = "=1.29.0", features = ["v4"] }
serde = { version = "=1.0.229", features = ["derive"] }
serde_json = "=1.0.154"
dirs = "=7.0.0"
keyring = "=3.6.3"
taskchampion = { version = "=3.1.0", default-features = false, features = ["storage-sqlite", "server-sync", "bundled", "tls-webpki-roots"] }
tokio = { version = "=1.54.1", features = ["rt"] }
rusqlite = { version = "=0.39.0", features = ["bundled"] }
reqwest = { version = "=0.12.28", default-features = false, features = ["blocking", "json", "rustls-tls"] }
libc = "=0.2.191"

[dev-dependencies]
tempfile = "=3.27.0"
