[package]
name = "moxy"
version = "0.1.0"
edition = "2021"
publish = false

[dependencies]
serde = { version = "1", features = ["derive"] }
serde_json = "1"
mime = "0.3"
mime_guess = "2"
hyper = { version = "0.14", features = ["full"] }
tokio = { version = "1", features = ["full"] }
futures-util = "0.3"
hyper-tungstenite = "0.11"
tokio-tungstenite = "0.18"
