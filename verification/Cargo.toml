[package]
name = "raytracing_one_weekend_rs"
version = "0.1.0"
edition = "2021"
publish = false

[dependencies]
anyhow = "1"
bitvec = "1"
bytemuck = "1"
byteorder = "1"
indicatif = "*"
num-traits = "0.2"
rand = "0.9"
thiserror = "2"
tracing = "0.1"
tracing-subscriber = "0.3"
