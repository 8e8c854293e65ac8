[package]
name = "poe_bridge"
version = "0.1.0"
edition = "2021"
publish = false

[dependencies]
chrono = "=0.4.45"
futures-util = "0.3"
nanoid = "=0.4.0"
poe_api_process = "=0.1.6"
quick_cache = "=0.6.24"
salvo = { version = "=0.84.2", default-features = false, features = ["server", "http1", "serve-static", "size-limiter"] }
serde = { version = "1", features = ["derive"] }
serde_json = "1"
serde_yaml = "0.9"
tokio = { version = "1", features = ["full"] }
tracing = "0.1"
tracing-subscriber = { version = "0.3", features = ["env-filter"] }
