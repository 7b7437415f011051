[package]
name = "voxel_sim"
version = "0.1.0"
edition = "2021"
publish = false

[dependencies]
anyhow = "1"
cgmath = "0.18"
pollster = "*"
rand = "0.9"
tokio = { version = "1", features = ["rt"] }
wgpu = "*"
winit = "0.30"
