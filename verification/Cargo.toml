[package]
name = "wysiwyl"
version = "0.1.0"
edition = "2021"
publish = false

[dependencies]
base64 = "0.22"
image = { version = "0.25", default-features = false, features = ["png", "jpeg", "bmp", "gif"] }
midir = "0.10"
serde = { version = "1", features = ["derive"] }
serde_json = "1"
