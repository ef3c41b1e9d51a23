[package]
name = "kuberirust"
version = "0.1.0"
edition = "2021"
publish = false

[dependencies]
rand = "0.8"
cgmath = "0.18"
wgpu = "*"
winit = "*"
bytemuck = { version = "1", features = ["derive"] }
anyhow = "1"
