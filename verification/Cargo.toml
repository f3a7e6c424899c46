[package]
name = "trimat"
version = "0.1.0"
edition = "2021"
publish = false

[dependencies]
rayon = "1"
pyo3 = "0.23"
numpy = "0.23"
ndarray = "0.16"
