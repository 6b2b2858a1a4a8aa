[package]
name = "flashq"
version = "0.1.0"
edition = "2021"
publish = false

[dependencies]
chrono = "0.4"
croner = "2"
uuid = { version = "1", features = ["v7"] }
serde = { version = "1", features = ["derive"] }
serde_json = "1"
tokio = { version = "1", features = ["full"] }
axum = "0.7"
