[package]
name = "objdetect"
version = "0.1.0"
edition = "2021"
publish = false

[dependencies]
image = "*"
serde = { version = "*", features = ["derive"] }
actix-web = "*"
actix-files = "*"
tflite = "*"

[dev-dependencies]
image = "*"
