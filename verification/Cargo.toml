[package]
name = "ocr"
version = "0.1.0"
edition = "2021"
publish = false

[dependencies]
image = { version = "0.24", default-features = false, features = ["png"] }
rayon = "1"
lazy_static = "1"
tesseract = "*"
