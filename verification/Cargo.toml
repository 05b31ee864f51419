[package]
name = "nvembed"
version = "0.1.0"
edition = "2021"
publish = false

[dependencies]
candle-core = { version = "=0.9.2", default-features = false }
candle-nn = { version = "=0.9.2", default-features = false }
serde = { version = "1", features = ["derive"] }
tracing = "0.1"
