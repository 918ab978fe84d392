[package]
name = "solarman"
version = "0.1.0"
edition = "2021"
publish = false

[dependencies]
modbus-rtu = { version = "=1.3.1", default-features = false }
tokio-util = { version = "=0.7.20", features = ["codec"] }
tokio = { version = "=1.54.1", features = ["full"] }
futures = "=0.3.34"
serde = { version = "=1.0.229", features = ["derive"] }
toml = "=1.1.8"
anyhow = "=1.0.104"
axum = "=0.8.9"
clap = { version = "=4.6.7", features = ["derive"] }
tracing = "=0.1.44"
tracing-subscriber = "=0.3.23"
thiserror = "=2.0.21"
