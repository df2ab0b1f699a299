[package]
name = "background_blur"
version = "0.1.0"
edition = "2021"
publish = false

[dependencies]
glam = "*"
smithay = { version = "0.7", default-features = false, features = ["wayland_frontend", "renderer_gl"] }
