//! The anonymity-revocation experiments: timestamps, CSV files, environment
//! options, experiment grids and MP-SPDZ inputs.
pub mod time;
pub mod c4;
pub mod cft;
pub mod csv;
pub mod env;
pub mod experiment;
pub mod paths;
pub mod regenerate;
pub mod stats;
pub mod mpc;
pub mod link;
pub mod pet;
pub mod direct;
