[package]
name = "dla"
version = "0.1.0"
edition = "2021"
publish = false

[dependencies]
clearscreen = "*"
ndarray = "0.15"
rand = "0.8"
