[package]
name = "hopper"
version = "0.1.0"
edition = "2021"
publish = false

[dependencies]
md5 = "*"
proxy-protocol = "*"
tokio = { version = "*", features = ["rt-multi-thread", "net", "io-util", "time", "signal", "sync", "macros"] }
serde = { version = "*", features = ["derive"] }
config = "*"
log = "*"
simple_logger = "*"
