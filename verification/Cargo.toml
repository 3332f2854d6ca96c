[package]
name = "bladeworks"
version = "0.1.0"
edition = "2021"
publish = false

[dependencies]
anyhow = "1"
futures = "0.3"
futures-util = "0.3"
parking_lot = "0.12"
tokio = { version = "1", features = ["rt", "sync", "macros"] }
tracing-subscriber = { version = "0.3", features = ["env-filter"] }
