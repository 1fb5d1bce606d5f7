[package]
name = "psl2"
version = "0.1.0"
edition = "2021"
publish = false

[dependencies]
idna = "1"
