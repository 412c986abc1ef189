[package]
name = "project_stats"
version = "0.1.0"
edition = "2021"
publish = false

[dependencies]
clap = { version = "4", features = ["derive"] }
colored = "2"
env_logger = "0.11"
ignore = "0.4"
log = "0.4"
serde = { version = "1", features = ["derive"] }
serde_json = "1"
spinners = "4"
