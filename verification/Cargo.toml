[package]
name = "spruce_grove"
version = "0.1.0"
edition = "2021"
publish = false

[dependencies]
base64 = "0.22"
getrandom = "0.2"
hmac = "0.12"
pbkdf2 = "0.12"
sha2 = "0.10"
subtle = "2"
serde = { version = "1", features = ["derive"] }
serde_json = "1"
tauri = { version = "2", default-features = false }
