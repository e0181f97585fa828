[package]
name = "svg_to_omap_point_symbol"
version = "0.1.0"
edition = "2021"
publish = false

[dependencies]
clap = { version = "*", features = ["derive"] }
omap = "*"
usvg = "*"
