[package]
name = "escape_time"
version = "0.1.0"
edition = "2021"
publish = false

[dependencies]
rayon = "1"
colorsys = "0.6"
image = { version = "0.24", default-features = false, features = ["png"] }
num = "0.4"
sdl2 = "0.35"
