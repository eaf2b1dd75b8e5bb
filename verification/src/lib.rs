//! Verified storage primitives and governance-voting logic of the Casper DAO contracts.
//!
//! The contract storage is modelled as in-memory dictionaries whose contents are
//! stated as mathematical maps; the voting rules are stated over those maps and over
//! the numeric value of the 512-bit stakes.
pub mod keys;
pub mod mapping;
pub mod error;
pub mod names;
pub mod vec_mapping;
pub mod numeric;
pub mod address;
pub mod indexed;
pub mod list;
pub mod sequence;
pub mod dictionary_key;
pub mod voting;
pub mod ballot;
pub mod engine;
pub mod slashing;
pub mod repo_voter;
