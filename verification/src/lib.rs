//! Verification and aggregation layer for pairing-based cryptography in
//! Ethereum-style protocols: BLS signature schemes over BLS12-381, KZG
//! polynomial commitments for blob proofs, and precompile-style helpers.
//!
//! The field, curve and pairing arithmetic is supplied by an external
//! arithmetic engine and is consumed through a small trusted boundary
//! (see `engine`); everything above that boundary — encoding and
//! validation of keys, signatures, commitments and proofs, the aggregate
//! and batch verification protocols, and the trusted-setup lifecycle —
//! is verified.

pub mod encoding;
pub mod engine;
pub mod codec;
pub mod pool;
pub mod setup_format;
pub mod kzg;
pub mod evm;
pub mod halo2_zal;
pub mod zal_halo2kzg;
pub mod bls;
