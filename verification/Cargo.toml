[package]
name = "appstream_cache"
version = "0.1.0"
edition = "2021"
publish = false

[dependencies]
sled = "*"
memchr = "*"
flate2 = "*"
tar = "*"
serde = { version = "*", features = ["derive"] }
serde_yaml = "*"
smol = "*"
