[package]
name = "astral-watch"
version = "0.5.0"
edition = "2021"
rust-version = "1.85"
publish = false

[dependencies]
anyhow = "1"
chrono = "0.4"
clap = { version = "4", features = ["derive"] }
i2cdev = "0.6"
nvml-wrapper = "*"
ratatui = "*"
serde = { version = "1", features = ["derive"] }
serde_json = "1"
signal-hook = "0.3"
toml = "0.9"
ureq = { version = "3", features = ["json"] }
