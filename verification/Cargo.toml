[package]
name = "glyphgrid"
version = "0.1.0"
edition = "2021"
publish = false

[dependencies]
anyhow = "*"
palette = "*"
serde = { version = "*", features = ["derive"] }
serde_json = "*"
ttf-parser = "*"
unicode-segmentation = "*"
unicode-width = "*"
xi-unicode = "*"
