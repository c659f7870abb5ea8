[package]
name = "logcore"
version = "0.1.0"
edition = "2021"
publish = false

[dependencies]
chrono = { version = "=0.4.45", features = ["serde"] }
uuid = { version = "=1.27.0", features = ["v4"] }
axum = "=0.8.9"
tokio = { version = "=1.53.2", features = ["full"] }
serde = { version = "=1.0.229", features = ["derive"] }
serde_json = "=1.0.151"
parking_lot = "=0.12.5"
colored = "=3.1.1"
jsonwebtoken = "=11.1.0"
futures = "=0.3.34"
