[package]
name = "devlog"
version = "0.1.0"
edition = "2021"
publish = false

[dependencies]
serde = { version = "1", features = ["derive"] }
serde_json = "1"
chrono = "0.4"
toml = "0.8"
clap = { version = "4", features = ["derive"] }
anyhow = "1"
atty = "0.2"
