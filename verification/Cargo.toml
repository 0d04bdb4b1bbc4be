[package]
name = "pathfinder"
version = "0.1.0"
edition = "2021"
publish = false

[dependencies]
bitvec = "=1.1.1"
priority-queue = "=1.4.0"
tokio = { version = "=1.54.1", features = ["rt-multi-thread", "macros", "sync", "fs", "io-util"] }
async-channel = "=1.9.0"
async-trait = "=0.1.92"
futures-util = "=0.3.34"
serde = { version = "=1.0.229", features = ["derive"] }
serde_json = "=1.0.154"
log = "=0.4.34"
env_logger = "=0.9.3"
redis = { version = "=0.21.8", features = ["tokio-comp"] }
zeromq = "0.4"
rust-s3 = "=0.28.1"
csv = "=1.4.0"
csv-async = { version = "=1.3.1", features = ["tokio"] }
