[package]
name = "somebdd"
version = "0.1.0"
edition = "2021"
publish = false

[dependencies]
base64 = "0.13"
hmac = "0.11"
sha2 = "0.9"
crypto-hashes = "*"
cucumber_rust = "0.8"
hyper = { version = "0.14", features = ["client", "http1", "tcp"] }
hyper-tls = "0.5"
