[package]
name = "oxide"
version = "0.1.0"
edition = "2021"
publish = false

[dependencies]
chrono = "*"
clap = { version = "*", features = ["derive"] }
color-eyre = "*"
crossterm = "*"
ratatui = "*"
tokio = { version = "*", features = ["rt-multi-thread", "macros", "sync", "time"] }
