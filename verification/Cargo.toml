[package]
name = "caip"
version = "0.1.0"
edition = "2021"
publish = false

[dev-dependencies]
regex = "=1.13.1"
