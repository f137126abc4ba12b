[package]
name = "fulgur"
version = "0.1.0"
edition = "2021"
publish = false

[dependencies]
blitz-dom = "=0.2.4"
cssparser = "=0.35.0"
image = { version = "=0.25.6", default-features = false, features = ["webp", "png"] }
krilla = "=0.7.0"
lopdf = "=0.46.0"
resvg = "=0.45.1"
serde = { version = "1", features = ["derive"] }
skrifa = "=0.37.0"
taffy = "=0.9.2"
tiny-skia = "=0.11.4"
unicode-properties = "=0.1.5"
unicode-segmentation = "=1.13.3"
usvg = "=0.45.1"
