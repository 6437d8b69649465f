[package]
name = "codesearch"
version = "0.1.0"
edition = "2021"
publish = false

[dependencies]
anyhow = "=1.0.104"
arroy = "=0.8.0"
axum = "=0.8.9"
chrono = "=0.4.45"
colored = "=3.1.1"
crossterm = "=0.29.0"
dashmap = "=6.2.1"
heed = "=0.22.1"
libc = "=0.2.191"
rand = "*"
ratatui = "=0.30.2"
reqwest = { version = "=0.12.28", default-features = false, features = ["json"] }
rmcp = { version = "=3.8.0", features = ["server", "transport-streamable-http-server"] }
serde = { version = "=1.0.229", features = ["derive"] }
serde_json = "=1.0.154"
sha2 = "=0.10.9"
sysinfo = "=0.40.1"
tokio = { version = "=1.54.1", features = ["full"] }
tokio-util = "=0.7.20"
tracing = "=0.1.44"

[dev-dependencies]
tempfile = "=3.27.0"
