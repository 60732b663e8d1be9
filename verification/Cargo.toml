[package]
name = "uubed-core"
version = "0.1.0"
edition = "2021"
publish = false

[dependencies]
rayon = "1"
once_cell = "1"
rand = "0.8"
rand_chacha = "0.3"
rand_distr = "0.4"
libc = "0.2"
