[package]
name = "siphash_core"
version = "0.1.0"
edition = "2021"
publish = false

[dependencies]
rand_core = "=0.9.5"
