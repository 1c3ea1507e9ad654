[package]
name = "hue"
version = "0.1.0"
edition = "2021"
publish = false

[dependencies]
rand = "0.8"
rand_distr = "0.4"
realfft = "3"
triple_buffer = "*"
atomic_float = "*"
