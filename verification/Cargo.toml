[package]
name = "mlp"
version = "0.1.0"
edition = "2021"
publish = false

[dependencies]
rand = "=0.8.8"
bytemuck = "=1.25.2"
noisy_float = "=0.2.1"
num-traits = "=0.2.19"
