[package]
name = "ocean_fft"
version = "0.1.0"
edition = "2021"
publish = false

[dependencies]
rand = "=0.8.8"
luminance = "=0.32.0"
luminance-derive = "=0.1.1"
nalgebra-glm = "=0.21.0"
sdl2 = "0.32"
gl = "0.13"
