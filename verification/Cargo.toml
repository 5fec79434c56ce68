[package]
name = "usvg_animation"
version = "0.1.0"
edition = "2021"
publish = false

[dependencies]
log = "0.4"
svgtypes = "0.15"
tiny-skia-path = "0.11"
