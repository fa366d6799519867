[package]
name = "iuro_server"
version = "0.1.0"
edition = "2021"
publish = false

[dependencies]
actix = "=0.8.3"
actix-files = "=0.1.7"
actix-web = "=1.0.9"
actix-web-actors = "=1.0.4"
chrono = "=0.4.19"
env_logger = "=0.7.1"
log = "=0.4.34"
rand = "=0.7.3"
serde = { version = "=1.0.229", features = ["derive"] }
serde_json = "=1.0.154"
thiserror = "=1.0.69"
