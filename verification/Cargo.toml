[package]
name = "ratchet"
version = "0.1.0"
edition = "2021"
publish = false

[dependencies]
anyhow = "1"
bytemuck = "1"
byteorder = "1"
encase = { version = "0.7", features = ["glam"] }
glam = "0.25"
log = "0.4"
ndarray = "0.15"
ndarray-stats = "0.5"
num-traits = "0.2"
parking_lot = "0.12"
rand = "0.8"
rand_distr = "0.4"
thiserror = "1"
wgpu = { version = "0.19", default-features = false, features = ["wgsl"] }
