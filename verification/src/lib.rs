//! A Merkle airdrop distributor: one-time claims against a fixed,
//! pre-committed allocation list.
//!
//! Eligibility is committed off-line as a Merkle tree whose leaves hash
//! `(index, recipient, amount)` triples. The library recomputes a leaf from a
//! claim request, walks the supplied proof against the stored root, and marks
//! the index as spent in a word-packed ledger so that each index can be paid
//! out at most once.

pub mod contract;
pub mod hex_str;
pub mod ledger;
pub mod merkle_proof;
pub mod msg;
pub mod state;
