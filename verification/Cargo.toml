[package]
name = "vamp"
version = "0.1.0"
edition = "2021"
publish = false

[dependencies]
anyhow = "=1.0.104"
console = "=0.16.6"
dirs = "=7.0.0"
lazy_static = "=1.5.1"
regex = "=1.13.1"
