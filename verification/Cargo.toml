[package]
name = "lancelot"
version = "0.1.0"
edition = "2021"
publish = false

[dependencies]
zydis = "=4.1.1"
