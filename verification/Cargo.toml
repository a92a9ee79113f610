[package]
name = "semantixel"
version = "0.1.0"
edition = "2021"
publish = false

[dependencies]
csv = "*"
image = "*"
pyo3 = { version = "*", features = ["extension-module"] }
rayon = "*"
thiserror = "*"
walkdir = "*"
