[package]
name = "goal_digger"
version = "0.1.0"
edition = "2021"
publish = false

[dependencies]
aomi-sdk = "*"
reqwest = { version = "0.12", default-features = false, features = ["blocking", "json", "rustls-tls"] }
serde = { version = "1", features = ["derive"] }
serde_json = "1"
