//! The Circom / Groth16 harness: field elements and Poseidon, the credential
//! and its Merkle trees, the packed revocation list, the generated circuits
//! and the toolchain's command lines.
pub mod circom_codegen;
pub mod credential;
pub mod field;
pub mod groth16;
pub mod issuance;
pub mod merkle_vs_flat;
pub mod paths;
pub mod poseidon_merkle;
pub mod revocation_tree;
pub mod zk_common;
