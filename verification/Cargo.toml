[package]
name = "waywallen"
version = "0.1.0"
edition = "2021"
publish = false

[dependencies]
base64 = "=0.22.1"
sha2 = "=0.10.9"
qrcode = { version = "=0.14.1", default-features = false, features = ["svg"] }
reqwest = { version = "0.12", default-features = false }
