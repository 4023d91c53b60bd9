[package]
name = "bincode_json"
version = "0.1.0"
edition = "2021"
publish = false

[dependencies]
serde = "1"
serde_json = "1"
base64 = "*"
bincode = "2"
