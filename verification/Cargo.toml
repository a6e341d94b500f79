[package]
name = "usch"
version = "0.1.0"
edition = "2021"
publish = false

[dependencies]
bytemuck = "*"
cpal = "*"
encase = { version = "*", features = ["mint"] }
lewton = "*"
mint = "*"
naga = { version = "*", features = ["glsl-in", "wgsl-out"] }
notify = "*"
pollster = "*"
serde = { version = "*", features = ["derive"] }
serde_json = "*"
shaderc = "*"
wgpu = "*"
winit = "*"
