[package]
name = "bellman_zorch"
version = "0.1.0"
edition = "2021"
publish = false

[dependencies]
bellman = "0.14"
ff = "0.13"
group = "0.13"
pairing = "0.23"
halo2curves = "*"
rand_core = "0.6"

[dev-dependencies]
rand = "0.8"
