[package]
name = "vortx_rollout"
version = "0.1.0"
edition = "2021"
publish = false

[dependencies]
bytemuck = { version = "=1.25.2", features = ["derive"] }
glamx = "=0.3.1"
khal = { version = "=0.4.0", features = ["derive"] }
khal-std = "=0.4.0"
