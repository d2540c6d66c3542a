[package]
name = "rustray"
version = "0.1.0"
edition = "2021"
publish = false

[dependencies]
rand = "*"
glam = "*"
bmp = "*"
sdl3 = "*"
