[package]
name = "opentelemetry_stdout"
version = "0.1.0"
edition = "2021"
publish = false

[dependencies]
serde = { version = "1", features = ["derive"] }
serde_json = "1"
opentelemetry_api = "0.20"
opentelemetry_sdk = "0.20"
