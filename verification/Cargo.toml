[package]
name = "otterhound"
version = "0.1.0"
edition = "2021"
publish = false

[dependencies]
hex = "0.4"
hmac = "0.12"
sha2 = "0.10"
serde = "1"
serde_derive = "1"
serde_json = "1"
futures = "0.3"
tokio = { version = "1", features = ["full"] }
hyper = { version = "0.14", features = ["full"] }
hyper-tls = "0.5"
tokio-postgres = "*"
bb8 = "*"
bb8-postgres = "*"
