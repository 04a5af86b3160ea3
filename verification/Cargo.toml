[package]
name = "salmon"
version = "0.1.0"
edition = "2021"
publish = false

[dependencies]
hamming = "0.1"
image = "0.23"
img_hash = "3"
redis = "*"
serde = { version = "1", features = ["derive"] }
serde_derive = "1"
serde_json = "1"
ureq = "*"
