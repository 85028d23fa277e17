[package]
name = "imzip"
version = "0.1.0"
edition = "2021"
publish = false

[dependencies]
flate2 = "1"
image = { version = "0.25", default-features = false, features = ["png", "jpeg", "gif", "webp", "bmp", "tiff", "tga", "ico", "pnm"] }
mozjpeg = "0.10"
oxipng = { version = "9", default-features = false }
imagequant = { version = "4", default-features = false }
png = "0.17"
webp = "0.3"
ravif = { version = "0.11", default-features = false }
rgb = "0.8"
clap = { version = "4", features = ["derive"] }
serde = { version = "1", features = ["derive"] }
toml = "0.8"
globset = "0.4"
walkdir = "2"
rayon = "1"
indicatif = "0.17"
