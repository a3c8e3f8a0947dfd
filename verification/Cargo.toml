[package]
name = "physics_core"
version = "0.1.0"
edition = "2021"
publish = false

[dependencies]
anyhow = "1"
glam = "0.29"
pollster = "0.4"
rand = "0.8"
rand_xoshiro = "0.6"
rayon = "1"
serde = { version = "1", features = ["derive"] }
toml = "0.8"
wgpu = "23"
winit = "0.30"
