[package]
name = "cnrt"
version = "0.1.0"
edition = "2021"
publish = false

[dependencies]
num-bigint = "0.4"

[dev-dependencies]
num-integer = "0.1"
