[package]
name = "feedcore"
version = "0.1.0"
edition = "2021"
publish = false

[dependencies]
sled = "*"
axum = "*"
tokio = { version = "*", features = ["full"] }
tower-http = { version = "*", features = ["cors", "trace", "validate-request"] }
gumdrop = "*"
tracing = "*"
tracing-subscriber = "*"
futures-util = "*"
generic-async-http-client = "*"
strong-xml = "*"
thiserror = "*"
serde = { version = "*", features = ["derive"] }
serde_json = "*"
time = { version = "*", features = ["parsing", "formatting"] }
