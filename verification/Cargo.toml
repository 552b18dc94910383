[package]
name = "imaginet"
version = "0.1.0"
edition = "2021"
publish = false

[dependencies]
anyhow = "1"
clap = { version = "4", features = ["derive"] }
colored = "*"
env_logger = "*"
home = "*"
log = "0.4"
serde = { version = "1", features = ["derive"] }
serde_yaml = "*"
