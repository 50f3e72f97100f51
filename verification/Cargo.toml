[package]
name = "plaza_rust"
version = "0.1.0"
edition = "2021"
publish = false

[dependencies]
arrow-array = "*"
arrow-cast = "*"
arrow-schema = "*"
bytes = "*"
flate2 = "*"
parquet = { version = "*", features = ["arrow"] }
pyo3 = "*"
rayon = "*"
zstd = "*"
