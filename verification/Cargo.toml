[package]
name = "llm_kernel"
version = "0.1.0"
edition = "2021"
publish = false

[dependencies]
serde = { version = "=1.0.229", features = ["derive"] }
serde_json = "=1.0.154"
base64 = "=0.22.1"
getrandom = "=0.3.4"
rusqlite = { version = "=0.41.1", features = ["bundled"] }
tokio = { version = "=1.54.1", features = ["time", "rt", "macros", "sync", "net"] }
async-trait = "=0.1.92"
futures-core = "=0.3.34"
tokio-stream = "0.1"
axum = "0.8"
reqwest = { version = "0.12", features = ["json", "stream"] }
