[package]
name = "dockboard"
version = "0.1.0"
edition = "2021"
publish = false

[dependencies]
async-process = "*"
crossterm = "*"
ratatui = "*"
tokio = { version = "*", features = ["rt-multi-thread", "macros", "sync"] }
