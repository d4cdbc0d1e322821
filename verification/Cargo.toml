[package]
name = "lz"
version = "0.1.0"
edition = "2021"
publish = false

[dependencies]
anyhow = "=1.0.104"
clap = { version = "=4.6.7", features = ["derive"] }
crossterm = "=0.29.0"
cursive = { version = "=0.21.1", default-features = false, features = ["crossterm-backend"] }
globset = "=0.4.20"
humantime = "=2.4.0"
owo-colors = "=4.4.0"
rfd = { version = "=0.17.2", default-features = false, features = ["xdg-portal"] }
serde = { version = "=1.0.229", features = ["derive"] }
serde_json = "=1.0.154"
