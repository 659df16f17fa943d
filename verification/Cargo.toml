[package]
name = "qwsearch"
version = "0.1.0"
edition = "2021"
publish = false

[dependencies]
ndarray = "0.15"
num = "0.4"
pyo3 = "0.20"
rand = "0.8"
rayon = "1"
