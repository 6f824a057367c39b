[package]
name = "ping_exporter"
version = "0.1.0"
edition = "2021"
publish = false

[dependencies]
ipnet = "2"
config = { version = "0.11", default-features = false, features = ["toml"] }
fastping-rs = "0.2"
prometheus_exporter = "0.8"
notify = "4"
log = "0.4"
env_logger = "0.9"
