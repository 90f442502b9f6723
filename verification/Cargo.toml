[package]
name = "hl_capture"
version = "0.1.0"
edition = "2021"
publish = false

[dependencies]
error-chain = "*"
failure = "*"
ffmpeg = "*"
fine_grained = "*"
gl = "*"
glx = "*"
lazy_static = "*"
libc = "*"
ocl = "*"
sdl2-sys = "*"
