[package]
name = "hangman"
version = "0.1.0"
edition = "2021"
publish = false

[dependencies]
zstd = "*"
lazy_static = "*"
piston = "*"
piston2d-graphics = "*"
piston2d-opengl_graphics = "*"
pistoncore-glutin_window = "*"
