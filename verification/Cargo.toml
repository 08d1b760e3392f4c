[package]
name = "rsws"
version = "0.1.0"
edition = "2021"
publish = false

[dependencies]
base64 = "=0.23.1"
flate2 = { version = "=1.1.10", features = ["zlib-rs"] }
getrandom = "=0.4.3"
sha1 = "=0.11.0"
tokio = { version = "=1.53.2", features = ["io-util"] }
