[package]
name = "aip"
version = "0.1.0"
edition = "2021"
publish = false

[dependencies]
chrono = "0.4"
clap = { version = "4", features = ["derive"] }
crossterm = "0.28"
git2 = "0.20"
ratatui = "0.29"
regex-lite = "0.1"
serde = { version = "1", features = ["derive"] }
serde_json = "1"
ureq = "3"
