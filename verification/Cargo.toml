[package]
name = "nimue"
version = "0.1.0"
edition = "2021"
publish = false

[dependencies]
ark-ec = "0.4"
ark-ff = "0.4"
ark-serialize = "0.4"
ark-std = "0.4"
curve25519-dalek = "4"
keccak = "0.1"
rand = "0.8"

[dev-dependencies]
ark-curve25519 = "0.4"
