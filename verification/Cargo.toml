[package]
name = "halo2_mpt_circuits"
version = "0.1.0"
edition = "2021"
publish = false

[dependencies]
ff = "=0.13.1"
halo2_proofs = "=0.3.5"
halo2curves = "=0.10.0"
num-bigint = "=0.4.8"
ethers-core = { version = "=2.0.14", default-features = false }
