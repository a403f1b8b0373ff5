[package]
name = "banco"
version = "0.1.0"
edition = "2021"
publish = false

[dependencies]
anyhow = "=1.0.104"
futures = "=0.3.34"
serde = { version = "=1.0.229", features = ["derive"] }
tarpc = { version = "=0.38.0", features = ["full"] }
thiserror = "=1.0.69"
tokio = { version = "=1.54.1", features = ["full"] }
tokio-util = { version = "=0.7.20", features = ["codec"] }
