[package]
name = "mmo_backend"
version = "0.1.0"
edition = "2021"
publish = false

[dependencies]
bytes = "1"
uuid = { version = "1", features = ["v4"] }
serde = { version = "1", features = ["derive"] }
serde_json = "1"
tokio = { version = "1", features = ["rt-multi-thread", "net", "macros", "time"] }
redis = { version = "*", features = ["tokio-comp", "connection-manager"] }
dotenv = "0.15"
anyhow = "1"
