[package]
name = "torudo"
version = "0.1.0"
edition = "2021"
publish = false

[dependencies]
chrono = "*"
clap = { version = "*", features = ["derive"] }
crossterm = "*"
env_logger = "*"
log = "*"
notify = "*"
ratatui = "*"
uuid = { version = "*", features = ["v4"] }
