[package]
name = "aside"
version = "0.1.0"
edition = "2021"
publish = false

[dependencies]
serde_json = "1"
uuid = { version = "1", features = ["v4"] }
tokio = { version = "1", features = ["fs", "io-util", "macros", "process", "rt", "sync", "time"] }
futures = "0.3"
tracing = "0.1"
async-trait = "0.1"
