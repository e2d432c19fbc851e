[package]
name = "ws_broker"
version = "0.1.0"
edition = "2021"
publish = false

[dependencies]
serde = { version = "1", features = ["derive"] }
serde_json = "1"
threadpool = "1"
ws = "0.9"
