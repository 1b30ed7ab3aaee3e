[package]
name = "lyrico"
version = "0.1.0"
edition = "2021"
publish = false

[dependencies]
regex = "1"
base64 = "0.22"
md-5 = "0.10"
aes = "0.8"
ecb = "0.1"
cipher = { version = "0.4", features = ["block-padding", "alloc"] }
flate2 = "1"
image = { version = "0.25", default-features = false, features = ["png", "jpeg", "gif", "webp"] }
serde = { version = "1", features = ["derive"] }
serde_json = "1"
zip = { version = "2", default-features = false, features = ["deflate"] }
walkdir = "2"
lofty = "*"
rusqlite = { version = "*", features = ["bundled"] }
rayon = "1"
reqwest = { version = "0.12", default-features = false, features = ["blocking", "rustls-tls"] }
rquickjs = "*"
