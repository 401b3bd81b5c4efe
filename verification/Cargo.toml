[package]
name = "launcher"
version = "0.1.0"
edition = "2021"
publish = false

[dependencies]
anyhow = "1"
clap = "4"
crossterm = "0.25"
dirs = "5"
env_logger = "0.10"
serde = { version = "1", features = ["derive"] }
toml = "0.8"
tui = "0.19"
