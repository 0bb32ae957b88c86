[package]
name = "neura"
version = "0.1.0"
edition = "2021"
publish = false

[dependencies]
naga = { version = "*", features = ["spv-out", "hlsl-out", "msl-out", "wgsl-in"] }
bytemuck = { version = "1", features = ["derive"] }
bitflags = "2"
