[package]
name = "alumina"
version = "0.1.0"
edition = "2021"
publish = false

[dependencies]
indexmap = "2"
ndarray = { version = "0.15", features = ["rayon"] }
rand = "0.7"
