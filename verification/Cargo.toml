[package]
name = "renderer"
version = "0.1.0"
edition = "2021"
publish = false

[dependencies]
glam = "*"
naga = { version = "*", features = ["wgsl-in"] }
image = { version = "*", default-features = false, features = ["png"] }
gltf = "*"
