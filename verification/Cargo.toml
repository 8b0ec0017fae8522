[package]
name = "protostar"
version = "0.1.0"
edition = "2021"
publish = false

[dependencies]
resvg = "*"
walkdir = "*"
dirs = "*"

[dev-dependencies]
image = "*"
