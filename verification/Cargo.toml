[package]
name = "heimdall"
version = "0.1.0"
edition = "2021"
publish = false

[dependencies]
clap = "4"
env_logger = "0.10"
futures = "0.3"
futures-util = "0.3"
hyper = { version = "0.14", features = ["full"] }
log = "0.4"
rustls = "0.21"
rustls-pemfile = "1"
serde = { version = "1", features = ["derive"] }
tokio = { version = "1", features = ["full"] }
tokio-rustls = "0.24"
toml = "0.8"
