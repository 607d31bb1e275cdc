[package]
name = "diaryx"
version = "0.1.0"
edition = "2021"
publish = false

[dependencies]
markdown = "*"
anyhow = "*"
clap = { version = "*", features = ["derive"] }
serde = { version = "*", features = ["derive"] }
serde_json = "*"
