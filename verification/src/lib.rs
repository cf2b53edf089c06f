//! A small zero-knowledge bookkeeping library: records are committed with a
//! collision-resistant hash, gathered into a Merkle tree, and a constraint
//! system encodes that twelve committed records open correctly, lie strictly
//! inside a public range, and sum to a public aggregate claim.

pub mod constraints;
pub mod econ_data;
pub mod field;
pub mod hash;
pub mod merkle;
pub mod util;
pub mod workflow;
