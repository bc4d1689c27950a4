[package]
name = "vector_index"
version = "0.1.0"
edition = "2021"
publish = false

[dependencies]
bytes = "1"
faiss = "*"
futures = "0.3"
itertools = "*"
prost = "*"
rand = "0.9"
