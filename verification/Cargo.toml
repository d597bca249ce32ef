[package]
name = "feature_pipe"
version = "0.1.0"
edition = "2021"
publish = false

[dependencies]
serde = { version = "=1.0.229", features = ["derive"] }
serde_json = "=1.0.154"
actix-web = "=4.18.1"
env_logger = "=0.11.11"
log = "=0.4.35"
futures = "=0.3.34"
libc = "=0.2.191"
lightgbm-sys = "=0.3.0"
pyo3 = "*"
numpy = "*"
