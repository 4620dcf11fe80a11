[package]
name = "oxllm-core"
version = "0.1.12"
edition = "2021"
publish = false

[dependencies]
reqwest = { version = "0.12", default-features = false, features = ["rustls-tls", "stream", "json"] }
hex = "0.4"
serde_json = "1"
serde = { version = "1", features = ["derive"] }
axum = "0.8"
tokio = { version = "1", features = ["full"] }
bytes = "1"
futures-util = "0.3"
tracing = "0.1"
thiserror = "2"
toml = "0.8"
opentelemetry = "0.29"
opentelemetry_sdk = { version = "0.29", features = ["rt-tokio"] }
opentelemetry-otlp = { version = "0.29", default-features = false, features = ["trace", "metrics", "http-json", "reqwest-client"] }
