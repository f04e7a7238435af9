[package]
name = "cooliris"
version = "0.1.0"
edition = "2021"
publish = false

[dependencies]
bytemuck = { version = "=1.25.2", features = ["derive"] }
crossbeam-channel = "=0.5.17"
env_logger = { version = "=0.11.11", default-features = false }
glam = "=0.29.3"
glyphon = "=0.6.0"
ignore = "=0.4.34"
image = { version = "=0.25.10", default-features = false, features = ["bmp", "gif", "jpeg", "png", "webp"] }
log = "=0.4.35"
pollster = "=0.4.0"
resvg = { version = "=0.44.0", default-features = false, features = ["memmap-fonts", "system-fonts", "text"] }
serde_json = { version = "=1.0.154", features = ["preserve_order"] }
wgpu = { version = "=22.1.0", default-features = false, features = ["wgsl"] }
winit = { version = "=0.30.13", default-features = false, features = ["rwh_06", "x11"] }
