[package]
name = "embark-oss"
version = "0.1.0"
edition = "2021"
publish = false

[dependencies]
eyre = "0.6"
futures = "0.3"
itertools = "0.10"
serde = { version = "1", features = ["derive"] }
serde_json = "1"
