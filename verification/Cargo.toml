[package]
name = "extrinsic_builder"
version = "0.1.0"
edition = "2021"
publish = false

[dependencies]
frame-metadata = { version = "*", features = ["std"] }
scale-info = "*"
parity-scale-codec = "*"
