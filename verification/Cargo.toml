[package]
name = "pubsub"
version = "0.1.0"
edition = "2021"
publish = false

[dependencies]
chrono = "*"
rand = "*"
serde = { version = "*", features = ["derive"] }
serde_json = "*"
arrow = "*"
parquet = { version = "*", features = ["arrow"] }
