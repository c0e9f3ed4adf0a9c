[package]
name = "dojo_registry"
version = "0.1.0"
edition = "2021"
publish = false

[dependencies]
convert_case = "*"
starknet-core = "*"
starknet-crypto = "*"
