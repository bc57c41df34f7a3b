[package]
name = "pyrsbase64"
version = "0.1.0"
edition = "2021"
publish = false

[dependencies]
pyo3 = "*"
pyo3-file = "*"

[dev-dependencies]
base64 = "*"
