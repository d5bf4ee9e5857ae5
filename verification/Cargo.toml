[package]
name = "cmdradio"
version = "0.4.5"
edition = "2021"
publish = false

[dependencies]
rand = "0.9"
serde = { version = "1", features = ["derive"] }
serde_json = "1"
toml = "0.8"
ureq = "2"
crossterm = "0.28"
ratatui = "0.29"
rodio = "0.20"
cpal = "0.15"
