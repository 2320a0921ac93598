[package]
name = "crdt_demo"
version = "0.1.0"
edition = "2021"
publish = false

[dependencies]
axum = { version = "=0.8.9", features = ["ws"] }
crdts-kit = { version = "=1.0.0", features = ["serde"] }
futures = "=0.3.34"
serde = { version = "=1.0.229", features = ["derive"] }
serde_json = "=1.0.154"
tokio = { version = "=1.54.1", features = ["full"] }
tracing = "=0.1.44"
tracing-subscriber = { version = "=0.3.23", features = ["env-filter"] }
ws-kit = "=1.0.1"

[dev-dependencies]
tokio-tungstenite = "=0.30.0"
tower = { version = "=0.5.3", features = ["util"] }
