[package]
name = "spirals"
version = "0.1.0"
edition = "2021"
publish = false

[dependencies]
macroquad = "*"
sdl2 = { version = "*", features = ["gfx"] }
