[package]
name = "ushell"
version = "0.1.0"
edition = "2021"
publish = false

[dependencies]
nb = "=1.1.0"
