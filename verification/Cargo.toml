[package]
name = "quorum_store"
version = "0.1.0"
edition = "2021"
publish = false

[dependencies]
anyhow = "*"
chrono = "*"
futures = "*"
tokio = { version = "*", features = ["sync", "time"] }
