[package]
name = "beagle"
version = "0.1.0"
edition = "2021"
publish = false

[dependencies]
base64 = "0.13"
byteorder = "1"
serde = { version = "1", features = ["derive"] }
serde_json = "1"
