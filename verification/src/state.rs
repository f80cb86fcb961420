//! The write-once configuration stored at initialization.

use vstd::prelude::*;

verus! {

/// Configuration fixed at initialization and immutable afterwards: the
/// payout token's address and code hash, and the 32-byte Merkle root the
/// allocation list was committed under (decoded from its hex wire form).
pub struct State {
    pub token_addr: String,
    pub token_hash: String,
    pub merkle_root: Vec<u8>,
}

impl State {
    /// A well-formed configuration holds a 32-byte root.
    pub open spec fn wf(self) -> bool {
        self.merkle_root@.len() == 32
    }
}

} // verus!
