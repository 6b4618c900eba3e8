[package]
name = "openclaw_bridge"
version = "0.1.0"
edition = "2021"
publish = false

[dependencies]
uuid = { version = "*", features = ["v4"] }
chrono = "*"
serde = { version = "*", features = ["derive"] }
serde_json = "*"
tokio = { version = "*", features = ["full"] }
tokio-tungstenite = "*"
futures-util = "*"
anyhow = "*"
log = "*"
env_logger = "*"
clap = { version = "*", features = ["derive"] }
dirs = "*"
fs2 = "*"
url = "*"
