[package]
name = "caves"
version = "0.1.0"
edition = "2021"
publish = false

[dependencies]
rand = "0.7"
base64 = "0.9"
colored = "1"
sdl2 = "0.32"
