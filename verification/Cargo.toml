[package]
name = "picturust"
version = "0.1.0"
edition = "2021"
publish = false

[dependencies]
image = "=0.25.10"
webp = "=0.3.1"
ravif = { version = "=0.11.20", default-features = false, features = ["threading"] }
rgb = "=0.8.53"
imagesize = "=0.13.0"
kamadak-exif = "=0.5.5"
rayon = "=1.12.0"
