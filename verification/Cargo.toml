[package]
name = "dubbo"
version = "0.1.0"
edition = "2021"
publish = false

[dependencies]
http = "0.2"
regex = "1"
rand = "0.8"
serde = { version = "1", features = ["derive"] }
serde_yaml = "0.9"
tracing = "0.1"
