[package]
name = "sera"
version = "0.1.0"
edition = "2021"
publish = false

[dependencies]
lazy_static = "*"
rusttype = "*"
stb_image = "*"
