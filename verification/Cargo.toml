[package]
name = "storage_layout"
version = "0.1.0"
edition = "2021"
publish = false

[dependencies]
sha3 = "*"
serde = { version = "*", features = ["derive"] }
serde_json = "*"
