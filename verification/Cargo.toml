[package]
name = "quanta-realtime-server"
version = "0.1.0"
edition = "2021"
publish = false

[dependencies]
bitcode = "0.6"
getrandom = "0.2"
hmac = "0.12"
sha2 = "0.10"
tokio = { version = "1", features = ["sync", "io-util", "time", "rt", "macros"] }
crossbeam-channel = "0.5"
serde = { version = "1", features = ["derive"] }
serde_json = "1"
tracing = "0.1"
arc-swap = "1"
rustc-hash = "2"
