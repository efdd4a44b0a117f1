[package]
name = "jikyuu"
version = "0.1.0"
edition = "2021"
publish = false

[dependencies]
chrono = "0.4"
git2 = "*"
clap = "*"
anyhow = "1"
log = "0.4"
env_logger = "*"
prettytable-rs = "*"
serde = { version = "1", features = ["derive"] }
serde_json = "1"
