[package]
name = "leaves_bm"
version = "0.1.0"
edition = "2021"
publish = false

[dependencies]
rand = "*"
