[package]
name = "pirouette"
version = "0.1.0"
edition = "2021"
publish = false

[dependencies]
anyhow = "1"
chrono = "0.4"
env_logger = "0.11"
flate2 = "1"
glob = "0.3"
in-container = "*"
log = "0.4"
serde = { version = "1", features = ["derive"] }
tar = "0.4"
toml = "*"
walkdir = "2"
