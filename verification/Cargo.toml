[package]
name = "tts_core"
version = "0.1.0"
edition = "2021"
publish = false

[dependencies]
base64 = "0.22"
lru = { version = "0.12", default-features = false }
uuid = { version = "1", features = ["v4"] }
rand = "0.8"
serde = { version = "1", features = ["derive"] }
serde_json = "1"
anyhow = "1"
thiserror = "1"
tokio = { version = "1", features = ["rt-multi-thread", "macros", "sync", "time", "net"] }
axum = { version = "0.8", features = ["ws"] }
tower = "0.5"
tower-http = { version = "0.6", features = ["cors", "timeout", "trace"] }
tower_governor = "*"
tracing = "0.1"
tracing-subscriber = { version = "0.3", features = ["env-filter"] }
dotenv = "0.15"
sysinfo = "*"
chrono = { version = "0.4", features = ["serde"] }
reqwest = { version = "0.12", default-features = false, features = ["json", "stream"] }
futures = "0.3"
async-stream = "0.3"
async-trait = "0.1"
tokio-stream = "0.1"

[dev-dependencies]
hound = "3"
