[package]
name = "scicompt"
version = "0.1.0"
edition = "2021"
publish = false

[dependencies]
ndarray = "0.13"
ndarray-linalg = "0.12"
num-traits = "0.2"
