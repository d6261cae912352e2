[package]
name = "rustdu"
version = "0.2.0"
edition = "2021"
publish = false

[dependencies]
anyhow = "1"
clap = { version = "4", features = ["derive"] }
crossterm = "0.28"
once_cell = "1"
ratatui = "0.29"
