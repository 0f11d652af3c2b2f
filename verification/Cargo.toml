[package]
name = "rusty_svd"
version = "0.1.0"
edition = "2021"
publish = false

[dependencies]
la = "*"
