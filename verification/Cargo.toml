[package]
name = "log2gfx"
version = "0.1.0"
edition = "2021"
publish = false

[dependencies]
clap = { version = "*", features = ["derive"] }
image = "*"
nalgebra = "*"
tiny-skia = "*"
