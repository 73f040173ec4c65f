[package]
name = "sonde"
version = "0.1.0"
edition = "2021"
publish = false

[dependencies]
cc = "1"
tempfile = "3"

[dev-dependencies]
nom = "7"
