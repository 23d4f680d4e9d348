[package]
name = "gpu"
version = "0.1.0"
edition = "2021"
publish = false

[dependencies]
ash = "=0.38.0"
bytemuck = "=1.25.2"
cudarc = { version = "=0.19.10", default-features = false, features = ["std", "driver", "dynamic-loading", "nvrtc", "cuda-12080"] }
dashmap = "=6.2.1"
log = "=0.4.35"
