[package]
name = "vvfos"
version = "0.1.0"
edition = "2021"
publish = false

[dependencies]
multiboot2 = "*"
rlibc = "1"
spin = "0.9"
