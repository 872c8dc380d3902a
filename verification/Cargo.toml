[package]
name = "claude_code_agent_sdk"
version = "0.1.0"
edition = "2021"
publish = false

[dependencies]
ringbuf = "0.4"
uuid = { version = "1", features = ["v4"] }
serde = { version = "1", features = ["derive"] }
serde_json = "1"
dirs = "5"
libc = "0.2"
tracing = "0.1"
tokio = { version = "1", features = ["rt", "macros", "sync", "process", "io-util", "time"] }
futures = "0.3"
async-trait = "0.1"
async-stream = "0.3"
chrono = { version = "0.4", default-features = false, features = ["clock"] }
dashmap = "6"
anyhow = "1"
typed-builder = "0.20"
paste = "1"
