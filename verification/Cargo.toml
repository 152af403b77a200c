[package]
name = "limited-queue"
version = "0.1.0"
edition = "2021"
publish = false

[dependencies]
async-stream = "0.3"
crossbeam-queue = "0.3"
futures = "0.3"
tokio = { version = "1", features = ["sync", "rt"] }

[dev-dependencies]
tokio-test = "0.4"
