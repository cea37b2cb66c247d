[package]
name = "forge"
version = "0.1.0"
edition = "2021"
publish = false

[dependencies]
sha2 = "0.10"
serde_yaml = "0.9"
serde = { version = "1", features = ["derive"] }
serde_json = "1"
regex = "1"
chrono = "0.4"
clap = { version = "4", features = ["derive"] }
console = "*"
dirs = "*"
askama = "*"
axum = "*"
tokio = { version = "1", features = ["full"] }
ratatui = "*"
crossterm = "*"
rust-embed = "*"

[dev-dependencies]
tempfile = "3"
