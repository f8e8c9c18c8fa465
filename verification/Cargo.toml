[package]
name = "contribai"
version = "0.1.0"
edition = "2021"
publish = false

[dependencies]
chrono = { version = "0.4", default-features = false, features = ["clock"] }
regex = "1"
serde_json = "1"
tracing = "0.1"
