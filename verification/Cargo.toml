[package]
name = "pcomb"
version = "0.1.0"
edition = "2021"
publish = false

[dependencies]
regex = "=1.13.1"

[dev-dependencies]
regex-syntax = "=0.8.11"
