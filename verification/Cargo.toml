[package]
name = "finding_breaks"
version = "0.1.0"
edition = "2021"
publish = false

[dependencies]
bytes = "=1.12.1"
itertools = "=0.12.1"
lazy-regex = "=3.6.2"
ordered-float = "=4.6.0"
parquet = { version = "=60.0.0", default-features = false, features = ["snap", "brotli", "flate2-rust_backend", "lz4", "zstd"] }
pyo3 = { version = "=0.20.3", features = ["abi3-py37"] }
rand = "=0.8.8"
regex = "=1.13.1"
timeit = "=0.1.2"
