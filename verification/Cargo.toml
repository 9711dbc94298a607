[package]
name = "jurassic_sandbox"
version = "0.1.0"
edition = "2021"
publish = false

[dependencies]
bevy = { version = "=0.17.3", default-features = false }
color-eyre = "=0.6.5"
crossterm = "=0.29.0"
noise = "=0.9.0"
rand = "=0.10.3"
ratatui = "=0.30.2"
serde = { version = "=1.0.229", features = ["derive"] }
toml = "=1.1.8"
