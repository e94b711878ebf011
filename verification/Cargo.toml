[package]
name = "raytracer"
version = "0.1.0"
edition = "2021"
publish = false

[dependencies]
anyhow = "1"
cgmath = "0.18"
image = { version = "0.24", default-features = false }
num = { version = "0.4", default-features = false }
obj = "0.10"
random-fast-rng = "0.1"
