[package]
name = "anvil-region"
version = "0.1.0"
edition = "2021"
publish = false

[dependencies]
bitvec = "=1.1.1"
byteorder = "=1.5.0"
named-binary-tag = "=0.6.0"
