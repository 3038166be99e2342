[package]
name = "collab_board"
version = "0.1.0"
edition = "2021"
publish = false

[dependencies]
axum = { version = "=0.7.9", features = ["ws"] }
chrono = { version = "=0.4.45", features = ["serde"] }
getrandom = "=0.4.3"
serde = { version = "=1.0.229", features = ["derive"] }
serde_json = "=1.0.154"
thiserror = "=1.0.69"
tokio = { version = "=1.54.1", features = ["full"] }
tower-http = { version = "=0.5.2", features = ["cors", "fs"] }
uuid = { version = "=1.29.0", features = ["v4"] }
