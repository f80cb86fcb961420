//! The claim ledger: one "already claimed" bit per claim index.
//!
//! Bits are packed into 128-bit words held in a sparse map keyed by
//! `index / 128`; the bit position inside the word is `index % 128`. A key
//! that was never touched stands for an all-zero word, so the ledger grows
//! only as new word keys are first written. Once set, a bit is never
//! cleared by any operation here.

use vstd::prelude::*;
use std::collections::BTreeMap;

verus! {

/// The number of claim bits packed into one ledger word.
pub const WORD_WIDTH: u128 = 128;

/// Whether bit `pos` of `word` is set.
pub open spec fn bit_set(word: u128, pos: u128) -> bool {
    (word >> pos) & 1 == 1
}

/// A sparse bitmap of claimed indices.
pub struct Ledger {
    words: BTreeMap<u128, u128>,
}

impl Ledger {
    /// The word stored for `key`; zero when the key was never written.
    pub closed spec fn spec_word(self, key: u128) -> u128 {
        if self.words@.contains_key(key) {
            self.words@[key]
        } else {
            0
        }
    }

    /// Whether `index` is recorded as claimed.
    pub open spec fn spec_is_claimed(self, index: u128) -> bool {
        bit_set(self.spec_word(index / WORD_WIDTH), index % WORD_WIDTH)
    }

    /// A fresh ledger: no index is claimed.
    pub fn new() -> (r: Ledger)
        ensures
            forall|i: u128| !r.spec_is_claimed(i),
    {
        let r = Ledger { words: BTreeMap::new() };
        proof {
            assert forall|i: u128| !r.spec_is_claimed(i) by {
                let p = i % WORD_WIDTH;
                assert((0u128 >> p) & 1 != 1) by (bit_vector);
            }
        }
        r
    }

    /// Load the ledger word for `key`, an absent key reading as zero.
    fn load_word(&self, key: u128) -> (w: u128)
        ensures
            w == self.spec_word(key),
    {
        match self.words.get(&key) {
            Some(w) => *w,
            None => 0,
        }
    }

    /// Read the claimed bit for `index`. A pure read: no side effects.
    pub fn is_claimed(&self, index: u128) -> (r: bool)
        ensures
            r == self.spec_is_claimed(index),
    {
        let pos = index % WORD_WIDTH;
        let word = self.load_word(index / WORD_WIDTH);
        let mask: u128 = 1u128 << pos;
        proof {
            let p = pos;
            let w = word;
            assert((w & (1u128 << p) == (1u128 << p)) == ((w >> p) & 1 == 1)) by (bit_vector)
                requires
                    p < 128,
            ;
        }
        word & mask == mask
    }

    /// Set the claimed bit for `index` by OR-ing it into its word and
    /// storing the word back. Exactly the bit for `index` is set; every
    /// other index keeps its previous state, so a set bit is never cleared.
    pub fn set_claimed(&mut self, index: u128)
        ensures
            forall|j: u128|
                final(self).spec_is_claimed(j) == (j == index || old(self).spec_is_claimed(j)),
    {
        let key = index / WORD_WIDTH;
        let pos = index % WORD_WIDTH;
        let word = self.load_word(key);
        let new_word: u128 = word | (1u128 << pos);
        self.words.insert(key, new_word);
        proof {
            assert forall|j: u128|
                self.spec_is_claimed(j) == (j == index || old(self).spec_is_claimed(j)) by {
                let kj = j / WORD_WIDTH;
                let pj = j % WORD_WIDTH;
                if kj == key {
                    let w = word;
                    let p = pos;
                    let q = pj;
                    assert((((w | (1u128 << p)) >> q) & 1 == 1) == (q == p || (w >> q) & 1 == 1))
                        by (bit_vector)
                        requires
                            p < 128,
                            q < 128,
                    ;
                    if pj == pos {
                        vstd::arithmetic::div_mod::lemma_fundamental_div_mod(
                            j as int,
                            WORD_WIDTH as int,
                        );
                        vstd::arithmetic::div_mod::lemma_fundamental_div_mod(
                            index as int,
                            WORD_WIDTH as int,
                        );
                        assert(j == index);
                    }
                }
            }
        }
    }
}

} // verus!
