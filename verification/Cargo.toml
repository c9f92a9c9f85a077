[package]
name = "eventfold-es"
version = "0.1.0"
edition = "2021"
publish = false

[dependencies]
serde = { version = "1", features = ["derive"] }
serde_json = "1"
tokio = { version = "1", features = ["macros", "rt", "rt-multi-thread", "sync", "time"] }
tokio-stream = "0.1"
tonic = "*"
tracing = "0.1"
uuid = { version = "1", features = ["v4", "v5"] }
