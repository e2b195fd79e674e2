[package]
name = "hbbft"
version = "0.1.0"
edition = "2021"
publish = false

[dependencies]
crossbeam = "*"
crossbeam-channel = "*"
log = "*"
merkle = "*"
protobuf = "*"
reed-solomon-erasure = "*"
ring = "0.16"
