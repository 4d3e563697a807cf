[package]
name = "variant"
version = "0.1.0"
edition = "2021"

[dependencies]
array_ext = "*"
rand = "0.7"
rand_xoshiro = "0.4"
