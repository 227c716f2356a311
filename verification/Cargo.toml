[package]
name = "chess_nn"
version = "0.1.0"
edition = "2021"
publish = false

[dependencies]
rand = "*"
chess = "*"
nalgebra = "*"
rayon = "*"
chrono = "*"
itertools = "*"
