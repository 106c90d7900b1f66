[package]
name = "shad_env"
version = "0.1.0"
edition = "2021"
publish = false

[dependencies]
bytemuck = { version = "1", features = ["derive"] }
wgpu = { version = "0.19", default-features = false, features = ["wgsl"] }
pollster = "0.3"
image = { version = "0.24", default-features = false, features = ["png"] }
