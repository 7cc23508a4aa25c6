[package]
name = "observe"
version = "0.1.0"
edition = "2021"
publish = false

[dependencies]
anyhow = "*"
chrono = "*"
clap = { version = "*", features = ["derive"] }
ratatui = "*"
size = "*"
sysinfo = "*"
