[package]
name = "xiaokui_alive"
version = "0.2.0"
edition = "2021"
publish = false

[dependencies]
tokio = { version = "1", features = ["full"] }
chrono = "0.4"
serde = { version = "1", features = ["derive"] }
serde_json = "1"
tauri = { version = "2", default-features = false }
tokio-tungstenite = "0.26"
futures-util = "0.3"
which = "7"
dirs = "6"
