[package]
name = "autofy"
version = "0.1.0"
edition = "2021"
publish = false

[dependencies]
base64 = "*"
serde = { version = "*", features = ["derive"] }
serde_json = "*"
rspotify = { version = "*", default-features = false, features = ["client-ureq", "ureq-rustls-tls", "cli"] }
ratatui = "*"
crossterm = "*"
color-eyre = "*"
reqwest = { version = "*", default-features = false, features = ["json", "rustls-tls"] }
async-recursion = "*"
