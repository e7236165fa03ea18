[package]
name = "worker_registry"
version = "0.1.0"
edition = "2021"
publish = false

[dependencies]
arc-swap = "1"
futures = "0.3"
tokio = { version = "1", features = ["sync"] }
