//! Verified core of a shielded-value pool: an incremental Merkle accumulator
//! with a bounded root history, a registry of roots known on linked chains,
//! the spent-nullifier set and the validation of shielded transactions.

pub mod error;
pub mod utils;
pub mod field;
pub mod poseidon;
pub mod root_history;
pub mod merkle_tree;
pub mod linkable_merkle_tree;
pub mod ext_data;
pub mod nullifier_set;
pub mod vanchor;
pub mod mixer;
pub mod anchor;
pub mod groth16;
