[package]
name = "rust_othello"
version = "0.1.0"
edition = "2021"
publish = false

[dependencies]
grid = "*"
