[package]
name = "openlink"
version = "0.1.0"
edition = "2021"
publish = false

[dependencies]
anyhow = "=1.0.104"
reqwest = { version = "=0.12.28", default-features = false, features = ["rustls-tls", "json"] }
serde = { version = "=1.0.229", features = ["derive"] }
serde_json = "=1.0.154"
dirs = "=5.0.1"
clap = { version = "=4.6.7", features = ["derive"] }
