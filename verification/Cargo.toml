[package]
name = "mosec"
version = "0.1.0"
edition = "2021"
publish = false

[dependencies]
argh = "0.1"
derive_more = "0.99"
async-channel = "1"
tokio = { version = "1", features = ["full"] }
tracing = "0.1"
tracing-subscriber = { version = "0.3", features = ["json", "local-time"] }
axum = "0.6"
hyper = { version = "0.14", features = ["full"] }
bytes = "1"
once_cell = "1"
prometheus-client = "0.21"
