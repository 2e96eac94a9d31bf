[package]
name = "othello_rust"
version = "0.1.0"
edition = "2021"
publish = false

[dependencies]
pyo3 = "0.21"
rand = "0.8"
