[package]
name = "cxl"
version = "0.1.0"
edition = "2021"
publish = false

[dependencies]
rand = "0.8"
rand_xoshiro = "0.6"
anyhow = "1"
clap = { version = "4", features = ["derive"] }
log = "0.4"
env_logger = "0.10"
libc = "0.2"
ioctl-sys = "0.8"
rayon = "1"
