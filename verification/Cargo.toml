[package]
name = "agentos_web"
version = "0.1.0"
edition = "2021"
publish = false

[dependencies]
sha2 = "=0.10.9"
hex = "=0.4.3"
subtle = "=2.6.1"
rand = "=0.8.8"
pulldown-cmark = { version = "=0.12.2", default-features = false, features = ["html"] }
serde_json = "=1.0.154"
serde_yaml = "=0.9.34"
uuid = { version = "=1.29.0", features = ["v4"] }
chrono = "=0.4.45"
cron = "=0.12.1"
regex = "=1.13.1"
dashmap = "=6.2.1"
reqwest = { version = "=0.12.28", default-features = false }
axum = { version = "=0.8.9", features = ["multipart"] }
axum-extra = { version = "=0.10.3", features = ["cookie"] }
tokio = { version = "=1.54.1", features = ["full"] }
tokio-stream = { version = "=0.1.19", features = ["sync"] }
tokio-util = "=0.7.20"
futures = "=0.3.34"
minijinja = "=2.24.0"
rusqlite = { version = "=0.31.0", features = ["bundled"] }
serde = { version = "=1.0.229", features = ["derive"] }
tower-http = { version = "=0.6.11", features = ["compression-gzip", "cors", "fs", "trace"] }
tower_governor = { version = "0.7", default-features = false, features = ["axum"] }
tracing = "=0.1.44"
anyhow = "=1.0.104"
time = "=0.3.55"
ureq = { version = "2", default-features = false }
zeroize = "1"
libc = "=0.2.191"
