[package]
name = "verandah_image"
version = "0.1.0"
edition = "2021"
publish = false

[dependencies]
ab_glyph = "0.2"
fontconfig = "*"
image = { version = "0.25", default-features = false }
imageproc = { version = "0.25", default-features = false }
parking_lot = "0.12"
serde = "1"
tracing = "0.1"

[dev-dependencies]
serde_json = "1"
