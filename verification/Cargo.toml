[package]
name = "file_microservice"
version = "0.1.0"
edition = "2021"
publish = false

[dependencies]
axum = { version = "*", features = ["multipart"] }
axum-extra = { version = "*", features = ["typed-header"] }
serde = { version = "*", features = ["derive"] }
serde_json = "*"
tokio = { version = "*", features = ["full"] }
tower-http = { version = "*", features = ["cors", "limit", "trace"] }
tracing = "*"
tracing-subscriber = { version = "*", features = ["env-filter"] }
