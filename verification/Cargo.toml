[package]
name = "mini_redis"
version = "0.1.0"
edition = "2021"
publish = false

[dependencies]
atoi = "2"
tokio = { version = "1", features = ["full"] }
bytes = "1"
clap = { version = "4", features = ["derive"] }
tokio-stream = "0.1"
async-stream = "0.3"
tracing = "0.1"
tracing-subscriber = "0.3"
