[package]
name = "denote"
version = "0.1.0"
edition = "2021"
publish = false

[dependencies]
chrono = "0.4"
colored = "2"
fuzzy-matcher = "0.3"
inquire = { version = "0.7", features = ["date"] }
itertools = "0.13"
serde = { version = "1", features = ["derive"] }
serde_json = "1"
serde_yaml = "0.9"
toml = "0.8"
