[package]
name = "gliderview"
version = "0.1.0"
edition = "2021"
publish = false

[dependencies]
sdl2 = "0.35"
