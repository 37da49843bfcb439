[package]
name = "ctfdb"
version = "0.1.0"
edition = "2021"
publish = false

[dependencies]
base64 = "0.13"
chrono = "0.4"
serde = { version = "1", features = ["derive"] }
serde_json = "1"
