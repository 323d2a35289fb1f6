[package]
name = "blobtx"
version = "0.1.0"
edition = "2021"
publish = false

[dependencies]
hex = "=0.4.3"
p256 = "0.13"
sha2 = "=0.10.9"
sha3 = "=0.10.9"
