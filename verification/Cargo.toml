[package]
name = "payload_storage"
version = "0.1.0"
edition = "2021"
publish = false

[dependencies]
lz4_flex = "*"
serde_json = "1"
serde = { version = "1", features = ["derive"] }
rand = "0.9"
fs-err = "3"
tempfile = "3"
