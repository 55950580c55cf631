[package]
name = "nexus_odyssey"
version = "0.1.0"
edition = "2021"
publish = false

[dependencies]
ignore = "*"
dot-parser = "*"
serde = { version = "*", features = ["derive"] }
serde_json = "*"
