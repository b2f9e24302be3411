[package]
name = "agar_backend"
version = "0.1.0"
edition = "2021"
publish = false

[dependencies]
rand = "0.8"
serde = { version = "1", features = ["derive"] }
serde_json = "1"
serde_cbor = "0.11"
tokio = { version = "1", features = ["full"] }
tokio-tungstenite = "*"
tungstenite = "*"
futures = "0.3"
hyper = { version = "0.14", features = ["full"] }
