[package]
name = "truncation_aware"
version = "0.1.0"
edition = "2021"
publish = false

[dependencies]
async-trait = "0.1"
dashmap = "=6.2.1"
tokio = { version = "1", features = ["rt", "time"] }
tracing = "0.1"
