[package]
name = "starky2"
version = "0.1.0"
edition = "2021"
publish = false

[dependencies]
anyhow = "*"
itertools = "*"
plonky2 = "*"
plonky2_field = "*"
plonky2_util = "*"
rayon = "*"
