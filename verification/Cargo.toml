[package]
name = "kiro_gateway"
version = "0.1.0"
edition = "2021"
publish = false

[dependencies]
axum = "0.8"
parking_lot = "0.12"
serde = { version = "1", features = ["derive"] }
subtle = "2"
