[package]
name = "shadow_swap"
version = "0.1.0"
edition = "2021"
publish = false

[dependencies]
raylib = "=6.0.0"
