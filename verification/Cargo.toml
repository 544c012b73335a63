[package]
name = "bytes_codec"
version = "0.1.0"
edition = "2021"
publish = false

[dependencies]
pot = "*"
serde = "*"

[dev-dependencies]
rand = "0.8"
