[package]
name = "r1cs_reader"
version = "0.1.0"
edition = "2021"
publish = false

[dependencies]
ark-bls12-381 = "0.5"
ark-ff = "0.5"
byteorder = "1"
