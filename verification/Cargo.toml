[package]
name = "pro_cache_backend"
version = "0.1.0"
edition = "2021"
publish = false

[dependencies]
tokio = { version = "*", features = ["sync", "rt", "macros", "rt-multi-thread"] }
uuid = { version = "*", features = ["v4"] }
chrono = "*"
serde_json = "*"
form_urlencoded = "*"
serde = { version = "*", features = ["derive"] }
actix-web = "*"
actix-ws = "*"
actix-rt = "*"
actix-cors = "*"
env_logger = "*"
log = "*"
futures-util = "*"
tokio-stream = "*"
dashmap = "*"
parking_lot = "*"
