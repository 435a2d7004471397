[package]
name = "macmon"
version = "0.1.0"
edition = "2021"
publish = false

[dependencies]
core-foundation = "0.10"
