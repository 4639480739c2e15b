[package]
name = "mpressed"
version = "0.1.0"
edition = "2021"
publish = false

[dependencies]
chrono = "*"
rusqlite = { version = "*", features = ["bundled"] }
dirs = "*"
mpris = "*"
ratatui = "*"
log = "*"
env_logger = "*"
