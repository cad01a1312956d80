[package]
name = "mahjong_core"
version = "0.1.0"
edition = "2021"
publish = false

[dependencies]
rand = "0.9"
chrono = "0.4"
serde = { version = "1", features = ["derive"] }
serde_json = "1"
anyhow = "1"
