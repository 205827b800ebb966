[package]
name = "pulse_relay"
version = "0.1.0"
edition = "2021"
publish = false

[dependencies]
serde_json = "1"
serde = { version = "1", features = ["derive"] }
tokio = { version = "1", features = ["full"] }
tokio-util = { version = "0.7", features = ["codec", "io"] }
futures = "0.3"
axum = "0.8"
reqwest = { version = "0.12", features = ["stream"] }
hyper = "1"
tower-http = { version = "0.6", features = ["cors"] }
feed-rs = "2"
dotenv = "0.15"
log = "0.4"
url = "2"
ngrok = "*"
