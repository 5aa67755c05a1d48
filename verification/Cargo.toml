[package]
name = "darshjdb_core"
version = "0.1.0"
edition = "2021"
publish = false

[dependencies]
serde = { version = "1", features = ["derive"] }
serde_json = "1"
chrono = "0.4"
uuid = { version = "1", features = ["v4"] }
sha2 = "0.10"
hmac = "0.12"
data-encoding = "2"
image = { version = "0.25", default-features = false, features = ["png", "jpeg", "webp"] }
