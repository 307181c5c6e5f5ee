[package]
name = "cardinal"
version = "0.1.0"
edition = "2021"
publish = false

[dependencies]
rustc-hash = "*"
glam = { version = "*", features = ["mint"] }
mint = "*"
wgpu = { version = "*", default-features = false, features = ["vulkan", "wgsl"] }
wgpu-hal = { version = "*", default-features = false, features = ["vulkan"] }
wgpu-types = "*"
ash = "*"
libc = "*"
pollster = "*"
tokio = { version = "*", features = ["rt-multi-thread"] }
egui = "*"
egui-wgpu = { version = "*", default-features = false }
egui-winit = { version = "*", default-features = false }
winit = "*"
stardust-xr-fusion = "*"
stardust-xr-molecules = "*"
stardust-xr-wire = "*"
timeline_syncobj = "*"
