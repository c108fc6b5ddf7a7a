[package]
name = "session_gate"
version = "0.1.0"
edition = "2021"
publish = false

[dependencies]
sled = "0.34"
chrono = { version = "0.4", default-features = false, features = ["clock"] }
getrandom = "0.2"
axum = "0.8"
tokio = { version = "1", features = ["rt-multi-thread", "macros", "time", "sync", "net", "signal"] }
log = "0.4"
serde = { version = "1", features = ["derive"] }
serde_json = "1"
