[package]
name = "spelling_bee"
version = "0.1.0"
edition = "2021"
publish = false

[dependencies]
rand = { version = "0.9", features = ["small_rng"] }
dashmap = "*"
chrono = "0.4"
base64 = "0.22"
serde = { version = "1", features = ["derive"] }
serde_json = "1"
