[package]
name = "zpl_forge"
version = "0.3.2"
edition = "2021"
publish = false

[dependencies]
rxing = "=0.8.3"
image = "=0.25.10"
imageproc = "=0.25.1"
ab_glyph = "=0.2.32"
base64 = "=0.23.1"
flate2 = "=1.1.10"
lopdf = { version = "=0.46.0", features = ["font_embedding"] }
subsetter = "=0.2.6"
rustybuzz = "=0.20.1"
unicode-linebreak = "=0.1.5"
unicode-script = "=0.5.9"
unicode-segmentation = "=1.13.3"
serde_json = "=1.0.154"
wasm-bindgen = "=0.2.130"
