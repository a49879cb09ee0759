[package]
name = "tablegrid"
version = "0.1.0"
edition = "2021"
publish = false

[dependencies]
csv = "1"
clap = { version = "4", features = ["derive"] }
anyhow = "1"
image = "0.25"
imageproc = "0.25"
ab_glyph = "0.2"
palette = "0.7"
