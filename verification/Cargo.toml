[package]
name = "discord_statistics"
version = "0.1.0"
edition = "2021"
publish = false

[dependencies]
serde_json = "1"
chrono = "0.4"
serde = { version = "1", features = ["derive"] }
toml = "*"
clap = { version = "*", features = ["derive"] }
dirs = "*"
