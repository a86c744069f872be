//! Verified core of the CFT anonymity-revocation and prove/verify benchmarks.
pub mod revocation;
pub mod text;
pub mod babyjub;
pub mod paths;
pub mod pattern;
pub mod sorting;
pub mod standard;
pub mod zk_friendly;
