[package]
name = "wgpu_array"
version = "0.1.0"
edition = "2021"
publish = false

[dependencies]
wgpu = "=0.13.1"
futures = "=0.3.34"
futures-intrusive = "=0.5.0"
bytemuck = "=1.25.2"

[dev-dependencies]
naga = { version = "=0.9.0", features = ["wgsl-in", "validate"] }
