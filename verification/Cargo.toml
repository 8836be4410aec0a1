[package]
name = "herdr"
version = "0.1.0"
edition = "2021"
publish = false

[dependencies]
serde = { version = "1", features = ["derive"] }
serde_json = "1"
unicode-width = "0.2"
time = "0.3"
schemars = "1"
