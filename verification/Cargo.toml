[package]
name = "file_relay"
version = "0.1.0"
edition = "2021"
publish = false

[dependencies]
rand = "0.8"
futures-util = "0.3"
tokio = { version = "1", features = ["macros", "net", "rt-multi-thread", "sync"] }
tokio-tungstenite = "0.21"
