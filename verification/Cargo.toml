[package]
name = "r2a"
version = "0.1.0"
edition = "2021"
publish = false

[dependencies]
anyhow = "=1.0.104"
arrow-array = "=60.0.0"
arrow-buffer = "=60.0.0"
arrow-schema = "=60.0.0"
