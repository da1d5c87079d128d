[package]
name = "library"
version = "0.1.0"
edition = "2021"
publish = false

[dependencies]
byteorder = "1"
uuid = { version = "0.8", features = ["v4"] }
openssl = "0.10"
tempfile = "3"
tokio = { version = "1", features = ["full"] }
cgroups-rs = "0.2"
anyhow = "1"
env_logger = "0.8"
