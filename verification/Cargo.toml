[package]
name = "determinism-proto"
version = "0.2.0"
edition = "2021"
publish = false

[dependencies]
prost = "*"
prost-types = "*"
protoc-bin-vendored = "*"
tempfile = "*"
