[package]
name = "txt2epub"
version = "0.1.0"
edition = "2021"
publish = false

[dependencies]
fancy-regex = "=0.20.0"
encoding_rs = "=0.8.44"
epub-builder = "=0.8.3"
tera = { version = "=2.4.0", features = ["preserve_order"] }
serde = { version = "=1.0.229", features = ["derive"] }
serde_json = "=1.0.154"
reqwest = { version = "=0.13.5", default-features = false, features = ["cookies", "json", "multipart"] }
tokio = { version = "=1.54.1", features = ["rt"] }
image = { version = "=0.25.10", default-features = false, features = ["png", "jpeg", "webp"] }
imageproc = "=0.27.0"
ab_glyph = "=0.2.32"

[dev-dependencies]
flate2 = "=1.1.10"
