[package]
name = "vados"
version = "0.1.0"
edition = "2021"
publish = false

[dependencies]
dashmap = "=6.2.1"
serde = { version = "*", features = ["derive"] }
serde_json = "*"
pulldown-cmark = "=0.13.4"
walkdir = "*"
minifier = { version = "=0.4.0", features = ["html"] }
webp = "*"
fast_image_resize = "*"
image = "*"
