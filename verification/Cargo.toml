[package]
name = "duck_color_picker"
version = "2.0.0"
edition = "2021"
publish = false

[dependencies]
arboard = { version = "3", default-features = false }
base64 = "0.22"
image = { version = "0.25", default-features = false, features = ["png"] }
serde = { version = "1", features = ["derive"] }
serde_json = "1"
uuid = { version = "1", features = ["v4"] }
