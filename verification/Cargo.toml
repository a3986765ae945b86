[package]
name = "kompilattheur"
version = "0.1.0"
edition = "2021"
publish = false

[dependencies]
colored = "=2.2.0"
libc = "=0.2.191"
tempfile = "=3.27.0"
