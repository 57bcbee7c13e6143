[package]
name = "msg-store-server"
version = "0.1.0"
edition = "2021"
publish = false

[dependencies]
msg-store = "=0.8.0"
serde = { version = "*", features = ["derive"] }
serde_json = "*"
clap = "*"
dirs = "*"
env_logger = "*"
log = "*"
futures = "*"
bytes = "*"
actix-web = "*"
