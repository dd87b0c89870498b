[package]
name = "bendengine"
version = "0.1.0"
edition = "2021"
publish = false

[dependencies]
serde_json = "=1.0.154"
serde = { version = "=1.0.229", features = ["derive"] }
uuid = { version = "=1.29.0", features = ["v4"] }
thiserror = "=1.0.69"
tokio = { version = "=1.54.1", features = ["rt", "sync", "macros", "time"] }
tokio-util = "=0.7.20"
futures = "=0.3.34"
async-trait = "=0.1.92"
parking_lot = "=0.12.5"
tracing = "=0.1.44"
reqwest = { version = "0.12", default-features = false }
