[package]
name = "korrekt"
version = "0.1.0"
edition = "2021"
publish = false

[dependencies]
anyhow = "=1.0.104"
halo2_proofs = "=0.2.0"
