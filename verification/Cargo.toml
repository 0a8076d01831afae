[package]
name = "changeforest"
version = "0.1.0"
edition = "2021"
publish = false

[dependencies]
rand = "=0.8.8"
ndarray = "=0.15.6"
biosphere = "0.3.0"

[dev-dependencies]
ndarray-rand = "=0.14.0"
