[package]
name = "session_import"
version = "0.1.0"
edition = "2021"
publish = false

[dependencies]
clap = { version = "4", features = ["derive"] }
crossterm = "0.28"
fastrand = "2"
ratatui = "0.29"
serde_json = "1"
