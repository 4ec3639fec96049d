[package]
name = "mfbot_server"
version = "0.1.0"
edition = "2021"
publish = false

[dependencies]
url = "=2.5.8"
zstd = "=0.14.0"
md5 = "=0.8.1"
fastrand = "=2.5.0"
chrono = "=0.4.45"
sf-api = "=0.3.3"
axum = "=0.8.9"
tokio = { version = "=1.53.2", features = ["rt-multi-thread", "macros", "net"] }
serde = { version = "=1.0.229", features = ["derive"] }
tower-http = { version = "=0.7.1", features = ["cors"] }
