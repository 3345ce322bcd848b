[package]
name = "aperion"
version = "0.1.0"
edition = "2021"
publish = false

[dependencies]
bytemuck = "1"
mimalloc = "*"
pollster = "*"
thiserror = "*"
wgpu = { version = "0.20", default-features = false, features = ["wgsl"] }
winit = { version = "0.30", default-features = false, features = ["rwh_06", "x11"] }
