[package]
name = "seam_disruptor"
version = "0.1.0"
edition = "2021"
publish = false

[dependencies]
crossbeam = "=0.8.5"
crossbeam-utils = "=0.8.23"
futures = "=0.3.34"
async-channel = "=1.9.0"
async-std = { version = "=1.13.2", features = ["attributes"] }
async-tls = "=0.13.0"
futures-util = { version = "=0.3.34", features = ["io"] }
serde = { version = "=1.0.229", features = ["derive"] }
bincode = "1"
anyhow = "=1.0.104"
log = "=0.4.34"
env_logger = "=0.11.11"
uuid = { version = "=1.29.0", features = ["v4"] }
