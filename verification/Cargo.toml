[package]
name = "markitel_helper"
version = "0.1.0"
edition = "2021"
publish = false

[dependencies]
url = "2"
serde = { version = "1", features = ["derive"] }
serde_json = "1"
reqwest = { version = "0.12", default-features = false, features = ["json", "rustls-tls"] }
tokio = { version = "1", features = ["rt", "macros"] }
keyring = "3"
sysinfo = "0.30"
walkdir = "2"
dirs = "5"
log = "0.4"
env_logger = "0.11"
