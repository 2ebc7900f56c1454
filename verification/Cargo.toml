[package]
name = "toy_datasets"
version = "0.1.0"
edition = "2021"
publish = false

[dependencies]
rand = "=0.8.8"
ndarray = "=0.15.6"
ndarray-rand = "=0.14.0"
burn = { version = "=0.13.2", default-features = false, features = ["std", "dataset"] }
bincode = "=2.0.0-rc.3"
