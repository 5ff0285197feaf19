[package]
name = "telemetry_core"
version = "0.1.0"
edition = "2021"
publish = false

[dependencies]
chrono = "=0.4.45"
serde = { version = "=1.0.229", features = ["derive"] }
serde_json = "=1.0.151"
anyhow = "=1.0.104"
axum = "=0.7.9"
tokio = { version = "=1.53.2", features = ["rt-multi-thread", "macros", "net"] }
tower = "=0.4.13"
tower-http = { version = "=0.5.2", features = ["cors", "fs"] }
futures = "=0.3.34"
async-stream = "=0.3.6"
tokio-stream = "=0.1.19"
