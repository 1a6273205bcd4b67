[package]
name = "confined_fs"
version = "0.1.0"
edition = "2021"
publish = false

[dependencies]
bytes = "1"
futures = "0.3"
http = "0.2"
http-body = "0.4"
http-range-header = "*"
percent-encoding = "2"
pin-project-lite = "0.2"
thiserror = "1"
tokio = { version = "1", features = ["fs", "io-util"] }
tokio-util = { version = "0.7", features = ["io"] }
tower-layer = "0.3"
tower-service = "0.3"
