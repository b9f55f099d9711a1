[package]
name = "rust_quant"
version = "0.1.0"
edition = "2021"
publish = false

[dependencies]
statrs = "0.17"
rayon = "1"
rand = "0.8"
rand_xoshiro = "0.6"
