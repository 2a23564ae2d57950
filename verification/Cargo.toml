[package]
name = "vector_store"
version = "0.1.0"
edition = "2021"
publish = false

[dependencies]
granne = { version = "=0.5.2", features = ["singlethreaded"] }
lmdb-zero = "=0.4.4"
tempfile = "=3.27.0"
uuid = "=1.27.0"
