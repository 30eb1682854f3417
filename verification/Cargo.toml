[package]
name = "shader_rs"
version = "0.1.0"
edition = "2021"
publish = false

[dependencies]
clap = { version = "=4.4.18", features = ["derive"] }
flume = "=0.11.1"
image = { version = "=0.24.9", default-features = false, features = ["png"] }
log = "=0.4.34"
pollster = "0.3"
simple_logger = "=4.3.3"
wgpu = { version = "=0.17.2", default-features = false, features = ["wgsl"] }
winit = { version = "=0.28.7", default-features = false, features = ["x11"] }
