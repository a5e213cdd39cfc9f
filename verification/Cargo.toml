[package]
name = "vt100"
version = "0.1.0"
edition = "2021"
publish = false

[dependencies]
libc = "0.2"
unicode-width = "0.1"
