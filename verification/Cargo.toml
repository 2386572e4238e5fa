[package]
name = "caelib"
version = "0.1.0"
edition = "2021"
publish = false

[dependencies]
bytemuck = { version = "1", features = ["derive"] }
clap = { version = "4", features = ["derive"] }
env_logger = "0.11"
log = "0.4"
pollster = "0.4"
wgpu = "26"
winit = "0.30"
