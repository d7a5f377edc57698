[package]
name = "crabs"
version = "0.1.0"
edition = "2021"
publish = false

[dependencies]
base64 = "=0.22.1"
chrono = { version = "=0.4.45", default-features = false, features = ["std", "clock", "serde"] }
regex = "=1.13.1"
serde_json = "=1.0.154"
sha2 = "=0.10.9"
urlencoding = "=2.1.3"
uuid = { version = "=1.29.0", features = ["v4"] }
wacore = { version = "=0.7.0", default-features = false }
wacore-binary = { version = "=0.7.0", default-features = false }
waproto = "=0.7.0"
whatsapp-rust = { version = "=0.7.0", default-features = false, features = ["tokio-runtime"] }
whatsapp-rust-tokio-transport = "=0.7.0"
whatsapp-rust-ureq-http-client = "=0.7.0"
anyhow = "1"
async-trait = "0.1"
axum = "=0.8.9"
deadpool-sqlite = "=0.13.0"
dirs = "=7.0.0"
futures = "0.3"
reqwest = { version = "=0.12.28", default-features = false, features = ["json"] }
rusqlite = { version = "=0.38.0", features = ["bundled"] }
serde = { version = "1", features = ["derive"] }
sqlx = { version = "=0.9.0", default-features = false, features = ["sqlite", "runtime-tokio", "macros", "migrate"] }
teloxide = { version = "=0.17.0", default-features = false, features = ["rustls"] }
takecell = "=0.1.1"
tokio = { version = "1", features = ["fs", "macros", "net", "process", "rt", "rt-multi-thread", "sync", "time"] }
tokio-util = "0.7"
toml = "=1.1.8"
tower-http = { version = "0.6", features = ["cors"] }
tracing = "0.1"
