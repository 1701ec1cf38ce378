[package]
name = "vibe_downloader"
version = "0.1.0"
edition = "2021"
publish = false

[dependencies]
anyhow = "=1.0.104"
auto-launch = "=0.6.0"
axum = { version = "=0.8.9", features = ["ws"] }
chrono = "=0.4.45"
dirs = "=7.0.0"
futures-util = "=0.3.34"
mime_guess = "=2.0.5"
open = "=5.4.5"
parking_lot = "=0.12.5"
reqwest = { version = "=0.13.5", features = ["stream"] }
rusqlite = { version = "=0.40.2", features = ["bundled"] }
rust-embed = "=8.13.0"
serde = { version = "=1.0.229", features = ["derive"] }
serde_json = "=1.0.154"
tokio = { version = "=1.54.1", features = ["full"] }
toml = "=1.1.8"
tower-http = { version = "=0.7.1", features = ["cors"] }
tracing = "=0.1.44"
tracing-subscriber = "=0.3.23"
tray-icon = "=0.26.1"
url = "=2.5.8"
urlencoding = "=2.1.3"
uuid = { version = "=1.29.0", features = ["v4"] }
