[package]
name = "licore"
version = "0.1.0"
edition = "2021"
publish = false

[dependencies]
base64 = "*"
chrono = "*"
crc = "*"
soft-aes = "*"
uuid = { version = "*", features = ["v4"] }

[dev-dependencies]
serde_json = "*"
