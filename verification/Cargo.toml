[package]
name = "ink_stroke"
version = "0.1.0"
edition = "2021"
publish = false

[dependencies]
forma-render = "=0.1.3"
winit = "0.27"
wgpu = "0.14"
pollster = "0.2"
env_logger = "0.10"
log = "0.4"
anyhow = "1"
