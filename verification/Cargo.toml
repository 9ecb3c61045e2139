[package]
name = "htsp_client"
version = "0.1.0"
edition = "2021"
publish = false

[dependencies]
anyhow = "*"
bytes = "*"
env_logger = "*"
futures = "*"
log = "*"
tokio = { version = "*", features = ["full"] }
