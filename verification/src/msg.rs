//! The wire-level request types, as plain values.
//!
//! Addresses travel as their human-readable strings; hashes travel
//! hex-encoded, 64 digits for 32 bytes.

use vstd::prelude::*;

verus! {

/// One-time initialization input: the payout token's address and code
/// hash, and the hex-encoded Merkle root the allocation list was
/// committed under.
pub struct InitMsg {
    pub token_addr: String,
    pub token_hash: String,
    pub merkle_root: String,
}

/// An incoming state-changing request.
pub enum HandleMsg {
    Claim { index: u128, address: String, amount: u128, proof: Vec<String> },
}

/// An incoming read-only request.
pub enum QueryMsg {
    IsClaimed { index: u128 },
}

} // verus!
