[package]
name = "zglyph"
version = "0.1.0"
edition = "2021"
publish = false

[dependencies]
crossterm = "*"
stl_io = "*"
terminal_size = "*"
