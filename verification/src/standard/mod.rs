//! The Longfellow (Google Benchmark) harness: options, report names,
//! benchmark command lines and the merkle-vs-flat and revocation sweeps.
pub mod cli;
pub mod driver;
pub mod gbench;
pub mod merkle_vs_flat;
pub mod paths;
pub mod revocation;
pub mod runner;
