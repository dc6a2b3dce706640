[package]
name = "trace_explorer"
version = "0.1.0"
edition = "2021"
publish = false

[dependencies]
anyhow = "*"
clap = { version = "*", features = ["derive"] }
crossterm = "*"
itf = "*"
ratatui = "*"
serde = { version = "*", features = ["derive"] }
serde_json = "*"
