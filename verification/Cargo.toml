[package]
name = "mini_http"
version = "0.1.0"
edition = "2021"
publish = false

[dependencies]
async-compression = { version = "0.4", features = ["tokio", "gzip"] }
env_logger = "0.11"
futures = "0.3"
log = "0.4"
tokio = { version = "1", features = ["rt-multi-thread", "macros", "net", "io-util", "signal", "sync", "time"] }
