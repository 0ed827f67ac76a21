[package]
name = "traitclaw"
version = "0.1.0"
edition = "2021"
publish = false

[dependencies]
async-trait = "*"
serde = { version = "*", features = ["derive"] }
serde_json = "*"
tokio = { version = "1", features = ["rt", "rt-multi-thread", "macros", "sync", "process", "io-util", "time"] }
tokio-stream = "*"
tracing = "*"
uuid = { version = "1", features = ["v4"] }
tiktoken-rs = "*"
rusqlite = { version = "*", features = ["bundled"] }
schemars = "*"
