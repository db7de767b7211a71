[package]
name = "yggdrasil"
version = "0.1.0"
edition = "2021"
publish = false

[dependencies]
url = "2"
hex = "0.4"
rustls = { version = "0.23", default-features = false, features = ["std"] }
tokio = { version = "1", features = ["full"] }
tokio-rustls = { version = "0.26", default-features = false }
tokio-util = "0.7"
tracing = "0.1"
getifaddrs = "*"
