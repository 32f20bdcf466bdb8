[package]
name = "cares_rs"
version = "0.1.0"
edition = "2021"
publish = false

[dependencies]
bytes = "1"
libc = "0.2"
rand = "0.8"
