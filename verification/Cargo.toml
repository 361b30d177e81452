[package]
name = "sand_kernel"
version = "0.1.0"
edition = "2021"
publish = false

[dependencies]
ahash = "0.8"
rand = "0.8"
rand_xoshiro = "0.6"
colored = "2"
nalgebra = "0.32"
godot = "*"
