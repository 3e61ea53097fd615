[package]
name = "mina_recorder"
version = "0.1.0"
edition = "2021"
publish = false

[dependencies]
unsigned-varint = "*"
libc = "*"
ctrlc = "*"

[dev-dependencies]
hex = "*"
