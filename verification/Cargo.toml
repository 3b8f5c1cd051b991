[package]
name = "mocktioneer"
version = "0.1.0"
edition = "2021"
publish = false

[dependencies]
base64 = "*"
ed25519-dalek = "*"
uuid = { version = "*", features = ["v7"] }
serde = { version = "*", features = ["derive"] }
serde_json = "*"
