[package]
name = "http_echo"
version = "0.1.0"
edition = "2021"
publish = false

[dependencies]
serde_json = "1"
rocket = { version = "0.5", default-features = false }
