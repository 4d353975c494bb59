[package]
name = "pingprobe"
version = "0.1.0"
edition = "2021"
publish = false

[dependencies]
axum = { version = "=0.7.9", features = ["ws"] }
axum-macros = "=0.4.2"
axum-typed-websockets = "=0.6.0"
serde = { version = "=1.0.229", features = ["derive"] }
tokio = { version = "=1.54.1", features = ["full"] }
uuid = { version = "=1.29.0", features = ["v4", "serde"] }

[dev-dependencies]
serde_json = "=1.0.154"
