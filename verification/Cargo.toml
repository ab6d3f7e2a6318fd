[package]
name = "testvm"
version = "0.1.0"
edition = "2021"
publish = false

[dependencies]
alloy-primitives = "*"
alloy-signer = "*"
alloy-signer-local = "*"
