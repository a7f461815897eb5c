[package]
name = "blogcore"
version = "0.1.0"
edition = "2021"
publish = false

[dependencies]
chrono = "0.4"
jsonwebtoken = "9"
pbkdf2 = { version = "0.12", features = ["simple"] }
rand_core = { version = "0.6", features = ["std"] }
serde = { version = "1", features = ["derive"] }
serde_json = "1"
