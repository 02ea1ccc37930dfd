[package]
name = "kairos_proxy"
version = "0.1.0"
edition = "2021"
publish = false

[dependencies]
anyhow = "1"
axum = "=0.6.20"
bytes = "1"
futures = "0.3"
hyper = { version = "=0.14.32", features = ["full"] }
regex = "=1.13.1"
reqwest = { version = "=0.11.27", default-features = false, features = ["stream"] }
serde = { version = "1", features = ["derive"] }
serde_json = "=1.0.151"
tokio = { version = "1", features = ["full"] }
toml = "0.8"
tracing = "0.1"
tracing-subscriber = { version = "0.3", features = ["env-filter"] }
