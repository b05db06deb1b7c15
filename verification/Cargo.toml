[package]
name = "meter_core"
version = "0.1.0"
edition = "2021"
publish = false

[dependencies]
zstd = "*"
serde_json = "*"
dirs = "*"
