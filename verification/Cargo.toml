[package]
name = "gemini-web-image"
version = "0.1.0"
edition = "2021"
publish = false

[dependencies]
regex = "=1.13.1"
serde = { version = "=1.0.229", features = ["derive"] }
serde_json = "=1.0.154"
thiserror = "=2.0.21"
url = "=2.5.8"
uuid = { version = "=1.29.0", features = ["v4"] }
wreq = { version = "0.15", features = ["cookies"] }
wreq-util = "0.1"
