[package]
name = "textblit"
version = "0.1.0"
edition = "2021"
publish = false

[dependencies]
rusttype = "*"
sdl2 = "*"
