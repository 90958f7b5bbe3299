[package]
name = "hypersketch"
version = "0.1.0"
edition = "2021"
publish = false

[dependencies]
hyperminhash = "*"
pyo3 = "*"
