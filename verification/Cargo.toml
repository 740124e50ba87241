[package]
name = "speech_server"
version = "0.1.0"
edition = "2021"
publish = false

[dependencies]
axum = { version = "0.8", features = ["ws"] }
dotenvy = "0.15"
futures = "0.3"
serde = { version = "1", features = ["derive"] }
serde_json = "1"
sherpa-rs = "*"
tokio = { version = "1", features = ["full"] }
whisper-rs = "*"
