[package]
name = "gametree"
version = "0.1.0"
edition = "2021"
publish = false

[dependencies]
itertools = "*"
rand = "0.9"
