[package]
name = "grubst"
version = "0.1.0"
edition = "2021"
publish = false

[dependencies]
sha2 = "0.10"
pbkdf2 = "0.12"
hex = "0.4"
subtle = "2"
rand = "0.8"
serde = { version = "1", features = ["derive"] }
serde_json = "1"
tempfile = "3"
chrono = "0.4"
log = "0.4"
env_logger = "0.11"
nix = { version = "0.29", features = ["user"] }
sysinfo = "0.30"
tokio = { version = "1", features = ["rt", "rt-multi-thread"] }
