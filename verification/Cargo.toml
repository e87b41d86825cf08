[package]
name = "eclair_routing"
version = "0.1.0"
edition = "2021"
publish = false

[dependencies]
h3o = "*"
polars = { version = "*", default-features = false, features = ["lazy", "csv", "parquet"] }
pyo3 = "*"
numpy = "*"
