[package]
name = "litehtml"
version = "0.1.0"
edition = "2021"
publish = false

[dependencies]
base64 = "=0.22.1"
encoding_rs = "=0.8.42"
image = { version = "=0.25.10", default-features = false, features = ["png", "jpeg", "gif", "bmp", "webp"] }
cosmic-text = "0.14"
tiny-skia = "0.11"
