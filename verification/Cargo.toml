[package]
name = "gpu_blur"
version = "0.1.0"
edition = "2021"
publish = false

[dependencies]
bytemuck = "=1.25.2"
image = "=0.25.10"
memmap2 = "=0.9.12"
pollster = "=1.0.1"
qoi = "=0.4.1"
rayon = "=1.12.0"
wgpu = "=29.0.4"
