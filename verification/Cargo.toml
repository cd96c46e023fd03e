[package]
name = "whatdo"
version = "0.1.0"
edition = "2021"
publish = false

[dependencies]
serde_yaml = "0.9"
anyhow = "1"
clap = { version = "4", features = ["derive"] }
colored = "2"
env_logger = "*"
log = "0.4"

[dev-dependencies]
regex = "1"
