[package]
name = "axocoatl"
version = "0.1.0"
edition = "2021"
publish = false

[dependencies]
serde_json = "=1.0.154"
serde = { version = "=1.0.229", features = ["derive"] }
sha2 = "=0.10.9"
hmac = "=0.12.1"
hex = "=0.4.3"
uuid = { version = "=1.29.0", features = ["v4"] }
chrono = { version = "=0.4.45", default-features = false, features = ["clock", "std"] }
bincode = "=2.0.1"
thiserror = "=2.0.21"
tracing = "=0.1.44"
tokio = { version = "=1.54.1", features = ["full"] }
tokio-stream = "=0.1.19"
async-trait = "=0.1.92"
async-stream = "=0.3.6"
reqwest = { version = "=0.12.28", default-features = false, features = ["json", "stream", "rustls-tls"] }
reqwest-eventsource = "=0.6.0"
async-openai = { version = "=0.33.1", features = ["chat-completion"] }
dashmap = "=6.2.1"
ractor = "=0.15.13"
wasmtime = { version = "=40.0.4", default-features = false, features = ["cranelift", "runtime", "async", "std"] }
wasmtime-wasi = "=40.0.4"
firepilot = "*"
