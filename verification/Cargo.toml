[package]
name = "ai_remote"
version = "0.2.1"
edition = "2021"
publish = false

[dependencies]
anyhow = "=1.0.104"
async-trait = "=0.1.92"
axum = { version = "=0.7.9", features = ["ws"] }
base64 = "=0.22.1"
futures-util = { version = "=0.3.34", features = ["sink"] }
mime_guess = "=2.0.5"
reqwest = { version = "=0.12.28", default-features = false, features = ["stream"] }
rust-embed = "=8.13.0"
rustls = { version = "=0.23.46", default-features = false, features = ["std", "ring", "tls12", "logging"] }
rustls-pemfile = "=2.2.0"
serde = { version = "=1.0.229", features = ["derive"] }
serde_json = { version = "=1.0.154", features = ["raw_value"] }
tokio = { version = "=1.54.1", features = ["full"] }
tokio-rustls = { version = "=0.26.6", default-features = false, features = ["ring", "tls12", "logging"] }
tokio-tungstenite = "=0.24.0"
tokio-util = "=0.7.20"
tower-http = { version = "=0.6.11", features = ["fs"] }
tracing = "=0.1.44"
tracing-subscriber = "=0.3.23"
turn = "=0.8.0"
url = "=2.5.8"
uuid = { version = "=1.29.0", features = ["v4"] }
webrtc = "=0.11.0"
webrtc-util = "=0.9.0"
