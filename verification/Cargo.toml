[package]
name = "trading_rs"
version = "0.1.0"
edition = "2021"
publish = false

[dependencies]
chrono = "0.4"
hmac = "0.10"
sha2 = "0.9"
reqwest = { version = "0.11", default-features = false, features = ["blocking", "rustls-tls"] }
