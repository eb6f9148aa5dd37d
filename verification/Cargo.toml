[package]
name = "pathlibrs"
version = "0.1.0"
edition = "2021"
publish = false

[dependencies]
glob = "0.3"
pyo3 = { version = "0.20", features = ["extension-module", "abi3-py38"] }
