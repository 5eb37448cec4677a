[package]
name = "rolegate"
version = "0.1.0"
edition = "2021"
publish = false

[dependencies]
serde = { version = "1", features = ["derive"] }
jwt = "0.16"
hmac = "0.12"
sha2 = "0.10"
