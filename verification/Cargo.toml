[package]
name = "allomere"
version = "0.1.0"
edition = "2021"
publish = false

[dependencies]
anyhow = "1"
parking_lot = "0.12"
rodio = "0.20"
serde = { version = "1", features = ["derive"] }
serde_json = "1"
