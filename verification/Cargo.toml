[package]
name = "tiny_solver"
version = "0.1.0"
edition = "2021"
publish = false

[dependencies]
faer = "0.22"
faer-ext = { version = "0.6", features = ["nalgebra"] }
log = "0.4"
nalgebra = "0.33"
num-dual = "0.11"
rayon = "1"
