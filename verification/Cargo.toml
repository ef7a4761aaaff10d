[package]
name = "eth_bls_kzg"
version = "0.1.0"
edition = "2021"
publish = false

[dependencies]
bls12_381 = { version = "=0.8.0", features = ["experimental"] }
sha2 = "=0.9.9"
halo2curves = "=0.6.1"
num-bigint = "0.4"

[dev-dependencies]
hex = "0.4"
