[package]
name = "voxel_world"
version = "0.1.0"
edition = "2021"
publish = false

[dependencies]
fnv = "=1.0.7"
noise = { version = "0.9", default-features = false }
kiss3d = "0.35"
