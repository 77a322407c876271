[package]
name = "track_work"
version = "0.1.0"
edition = "2021"
publish = false

[dependencies]
chrono = "*"
uuid = { version = "*", features = ["v4"] }
fuzzy-matcher = "*"
serde = { version = "*", features = ["derive"] }
serde_json = "*"
