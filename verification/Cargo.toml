[package]
name = "raytracing_2d"
version = "0.1.0"
edition = "2021"
publish = false

[dependencies]
wgpu = { version = "=30.0.1", features = ["noop"] }
winit = "=0.30.13"
cgmath = "=0.18.0"
pollster = "=1.0.1"
