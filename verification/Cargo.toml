[package]
name = "glidewin"
version = "0.1.0"
edition = "2021"
publish = false

[dependencies]
hound = "=3.5.1"
base64 = "=0.22.1"
serde = { version = "1", features = ["derive"] }
serde_json = "=1.0.154"
tokio = { version = "1", features = ["macros", "process", "rt", "sync", "time"] }
reqwest = { version = "=0.12.28", default-features = false, features = ["json", "multipart", "rustls-tls", "stream"] }
futures-util = "0.3"
dirs = "6"
dotenvy = "0.15"
rig-core = { version = "=0.38.2", default-features = false }
rig-derive = "=0.38.2"
