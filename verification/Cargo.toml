[package]
name = "xor_sum_proof"
version = "0.1.0"
edition = "2021"
publish = false

[dependencies]
bellman = "0.14"
bls12_381 = "0.8"
ff = "0.13"
log = "0.4"
rand = "0.8"
simple-logging = "2"
