[package]
name = "fileserver"
version = "0.1.0"
edition = "2021"
publish = false

[dependencies]
percent-encoding = "*"
bytes = "*"
futures-util = "*"
http-body-util = "*"
hyper = { version = "*", features = ["full"] }
hyper-util = { version = "*", features = ["full"] }
tokio = { version = "*", features = ["full"] }
tokio-util = { version = "*", features = ["io"] }
walkdir = "*"
serde = { version = "*", features = ["derive"] }
toml = "*"
log = "*"
env_logger = "*"
