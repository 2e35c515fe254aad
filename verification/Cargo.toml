[package]
name = "whisper_gateway"
version = "0.1.0"
edition = "2021"
publish = false

[dependencies]
uuid = { version = "=1.27.0", features = ["v4"] }
wavup = "=0.1.5"
wasmedge-wasi-nn = "=0.8.0"
hyper = { version = "=0.14.32", features = ["full"] }
tokio = { version = "=1.53.2", features = ["full"] }
clap = { version = "=4.6.7", features = ["derive"] }
serde = { version = "=1.0.229", features = ["derive"] }
serde_json = "=1.0.151"
hound = "=3.5.1"
