[package]
name = "semaphore_mock"
version = "0.1.0"
edition = "2021"
publish = false

[dependencies]
semaphore-rs = { version = "=0.6.0", features = ["depth_16"] }
semaphore-rs-poseidon = "=0.6.0"
ruint = "=1.21.1"
hex = "=0.4.3"
rand = "=0.8.8"
serde = { version = "=1.0.229", features = ["derive"] }
serde_json = "=1.0.154"
clap = { version = "=4.6.7", features = ["derive"] }
