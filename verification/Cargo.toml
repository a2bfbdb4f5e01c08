[package]
name = "build_critical_path"
version = "0.1.0"
edition = "2021"
publish = false

[dependencies]
anyhow = "1"
tokio = { version = "1", features = ["rt-multi-thread", "sync", "macros"] }
futures = "0.3"
