//! Merkle leaf encoding and proof verification.
//!
//! A leaf commits to `(index, recipient bytes, amount)` by hashing the
//! fixed-width big-endian encoding of the triple. A proof is walked by
//! hashing the current node with each sibling in turn, the pair ordered
//! lexicographically before concatenation, so no left/right position data
//! is carried. The sorted-pair convention cannot tell a node from its
//! sibling when the two are symmetric; that limitation is kept for wire
//! compatibility with trees already committed under this scheme.

use vstd::prelude::*;

verus! {

/// The Keccak-256 digest of a byte string. The digest is a function of the
/// input bytes alone; it is named here and never written out.
pub uninterp spec fn keccak_of(bytes: Seq<u8>) -> Seq<u8>;

/// Relies on `web3::signing::keccak256`: the Keccak-256 digest of the input
/// bytes, always 32 bytes long, depending on the input bytes alone.
#[verifier::external_body]
fn keccak(bytes: &Vec<u8>) -> (r: Vec<u8>)
    ensures
        r@ == keccak_of(bytes@),
        r@.len() == 32,
{
    web3::signing::keccak256(bytes.as_slice()).to_vec()
}

/// The 16-byte big-endian encoding of a 128-bit integer.
pub open spec fn spec_u128_be(x: u128) -> Seq<u8> {
    Seq::new(16, |i: int| (((x >> (((15 - i) * 8) as u128)) & 0xff) as u8))
}

/// The byte string a leaf commits to: index, then the recipient's canonical
/// bytes, then the amount, the integers in fixed-width big-endian form.
pub open spec fn spec_encode_leaf(index: u128, address: Seq<u8>, amount: u128) -> Seq<u8> {
    spec_u128_be(index) + address + spec_u128_be(amount)
}

/// Lexicographic order on byte strings, read from position `i` on: a string
/// that runs out first (or ties to the end) compares less-or-equal.
pub open spec fn lex_le_from(a: Seq<u8>, b: Seq<u8>, i: int) -> bool
    decreases a.len() - i,
{
    if i >= a.len() {
        true
    } else if i >= b.len() {
        false
    } else if a[i] < b[i] {
        true
    } else if a[i] > b[i] {
        false
    } else {
        lex_le_from(a, b, i + 1)
    }
}

/// Lexicographic less-or-equal on whole byte strings.
pub open spec fn lex_le(a: Seq<u8>, b: Seq<u8>) -> bool {
    lex_le_from(a, b, 0)
}

/// The hash of a node and its sibling: the two are ordered
/// lexicographically, concatenated, and digested.
pub open spec fn spec_hash_pair(a: Seq<u8>, b: Seq<u8>) -> Seq<u8> {
    if lex_le(a, b) {
        keccak_of(a + b)
    } else {
        keccak_of(b + a)
    }
}

/// Whether walking `siblings` up from `leaf` reproduces `root`.
pub open spec fn spec_verify(siblings: Seq<Seq<u8>>, root: Seq<u8>, leaf: Seq<u8>) -> bool
    decreases siblings.len(),
{
    if siblings.len() == 0 {
        leaf == root
    } else {
        spec_verify(siblings.drop_first(), root, spec_hash_pair(leaf, siblings[0]))
    }
}

/// Serialize a 128-bit integer as 16 big-endian bytes.
pub fn u128_to_be_bytes(x: u128) -> (r: Vec<u8>)
    ensures
        r@ == spec_u128_be(x),
{
    let mut out: Vec<u8> = Vec::new();
    let mut i: usize = 0;
    while i < 16
        invariant
            i <= 16,
            out@.len() == i,
            forall|j: int| 0 <= j < i ==> out@[j] == spec_u128_be(x)[j],
        decreases 16 - i,
    {
        let sh: u128 = ((15 - i) * 8) as u128;
        out.push(((x >> sh) & 0xff) as u8);
        i = i + 1;
    }
    proof {
        assert(out@ =~= spec_u128_be(x));
    }
    out
}

/// Serialize `(index, recipient bytes, amount)` in the committed leaf order.
/// Hashing the result yields the leaf commitment.
pub fn encode_as_merkle_leaf(index: u128, address: &Vec<u8>, amount: u128) -> (r: Vec<u8>)
    ensures
        r@ == spec_encode_leaf(index, address@, amount),
{
    let mut out = u128_to_be_bytes(index);
    let mut i: usize = 0;
    while i < address.len()
        invariant
            i <= address@.len(),
            out@ == spec_u128_be(index) + address@.take(i as int),
        decreases address@.len() - i,
    {
        out.push(address[i]);
        i = i + 1;
        proof {
            assert(out@ =~= spec_u128_be(index) + address@.take(i as int));
        }
    }
    proof {
        assert(address@.take(address@.len() as int) =~= address@);
    }
    let mut amt = u128_to_be_bytes(amount);
    out.append(&mut amt);
    proof {
        assert(out@ =~= spec_encode_leaf(index, address@, amount));
    }
    out
}

/// Compare two byte strings lexicographically.
fn lex_le_bytes(a: &Vec<u8>, b: &Vec<u8>) -> (r: bool)
    ensures
        r == lex_le(a@, b@),
{
    let mut i: usize = 0;
    while i < a.len() && i < b.len()
        invariant
            i <= a@.len(),
            i <= b@.len(),
            lex_le(a@, b@) == lex_le_from(a@, b@, i as int),
        decreases a@.len() - i,
    {
        let ai = a[i];
        let bi = b[i];
        if ai < bi {
            return true;
        }
        if ai > bi {
            return false;
        }
        proof {
            assert(lex_le_from(a@, b@, i as int) == lex_le_from(a@, b@, i as int + 1));
        }
        i = i + 1;
    }
    a.len() <= b.len()
}

/// Concatenate two byte strings.
fn concat_bytes(a: &Vec<u8>, b: &Vec<u8>) -> (r: Vec<u8>)
    ensures
        r@ == a@ + b@,
{
    let mut out: Vec<u8> = Vec::new();
    let mut i: usize = 0;
    while i < a.len()
        invariant
            i <= a@.len(),
            out@ == a@.take(i as int),
        decreases a@.len() - i,
    {
        out.push(a[i]);
        i = i + 1;
        proof {
            assert(out@ =~= a@.take(i as int));
        }
    }
    let mut j: usize = 0;
    while j < b.len()
        invariant
            j <= b@.len(),
            out@ == a@.take(a@.len() as int) + b@.take(j as int),
        decreases b@.len() - j,
    {
        out.push(b[j]);
        j = j + 1;
        proof {
            assert(out@ =~= a@.take(a@.len() as int) + b@.take(j as int));
        }
    }
    proof {
        assert(out@ =~= a@ + b@);
    }
    out
}

/// Hash a node together with a sibling, ordering the pair
/// lexicographically first.
pub fn hash_pair(a: &Vec<u8>, b: &Vec<u8>) -> (r: Vec<u8>)
    ensures
        r@ == spec_hash_pair(a@, b@),
        r@.len() == 32,
{
    if lex_le_bytes(a, b) {
        keccak(&concat_bytes(a, b))
    } else {
        keccak(&concat_bytes(b, a))
    }
}

/// Hash the committed encoding of `(index, address, amount)` into the
/// 32-byte leaf commitment.
pub fn leaf_hash(index: u128, address: &Vec<u8>, amount: u128) -> (r: Vec<u8>)
    ensures
        r@ == keccak_of(spec_encode_leaf(index, address@, amount)),
        r@.len() == 32,
{
    let encoded = encode_as_merkle_leaf(index, address, amount);
    keccak(&encoded)
}

/// Compare two byte strings for equality.
fn eq_bytes(a: &Vec<u8>, b: &Vec<u8>) -> (r: bool)
    ensures
        r == (a@ == b@),
{
    if a.len() != b.len() {
        return false;
    }
    let mut i: usize = 0;
    while i < a.len()
        invariant
            i <= a@.len(),
            a@.len() == b@.len(),
            forall|j: int| 0 <= j < i ==> a@[j] == b@[j],
        decreases a@.len() - i,
    {
        if a[i] != b[i] {
            return false;
        }
        i = i + 1;
    }
    proof {
        assert(a@ =~= b@);
    }
    true
}

/// Walk `siblings` up from `leaf`, hashing sorted pairs, and report whether
/// the recomputed root equals `root`. An empty proof verifies exactly when
/// `leaf == root`. No depth check is made: a proof of the wrong length
/// simply fails to reproduce the root.
pub fn verify_proof(siblings: Vec<Vec<u8>>, root: &Vec<u8>, leaf: Vec<u8>) -> (r: bool)
    ensures
        r == spec_verify(siblings.deep_view(), root@, leaf@),
{
    let ghost pdv: Seq<Seq<u8>> = siblings.deep_view();
    let mut current = leaf;
    let ghost leaf_view = current@;
    proof {
        assert(pdv.skip(0) =~= pdv);
    }
    let mut i: usize = 0;
    while i < siblings.len()
        invariant
            i <= siblings@.len(),
            pdv == siblings.deep_view(),
            pdv.len() == siblings@.len(),
            spec_verify(pdv.skip(i as int), root@, current@) == spec_verify(pdv, root@, leaf_view),
        decreases siblings@.len() - i,
    {
        proof {
            assert(pdv[i as int] == siblings@[i as int]@);
            assert(pdv.skip(i as int)[0] == pdv[i as int]);
            assert(pdv.skip(i as int).drop_first() =~= pdv.skip(i as int + 1));
        }
        let next = hash_pair(&current, &siblings[i]);
        current = next;
        i = i + 1;
    }
    proof {
        assert(pdv.skip(i as int) =~= Seq::<Seq<u8>>::empty());
    }
    eq_bytes(&current, root)
}

/// Hashing a node with a sibling does not depend on which operand comes
/// first: the pair is sorted lexicographically before it is hashed.
pub proof fn lemma_hash_pair_symmetric(a: Seq<u8>, b: Seq<u8>)
    ensures
        spec_hash_pair(a, b) == spec_hash_pair(b, a),
{
    lemma_lex_le_from_total(a, b, 0);
    if lex_le(a, b) && lex_le(b, a) {
        lemma_lex_le_from_antisym(a, b, 0);
        assert(a =~= b);
    }
}

/// An empty proof sequence verifies exactly when the leaf is already the
/// root.
pub proof fn lemma_empty_proof_verifies(root: Seq<u8>, leaf: Seq<u8>)
    ensures
        spec_verify(Seq::<Seq<u8>>::empty(), root, leaf) <==> leaf == root,
{
}

proof fn lemma_lex_le_from_total(a: Seq<u8>, b: Seq<u8>, i: int)
    requires
        0 <= i,
    ensures
        lex_le_from(a, b, i) || lex_le_from(b, a, i),
    decreases a.len() - i,
{
    if i < a.len() && i < b.len() {
        if a[i] == b[i] {
            lemma_lex_le_from_total(a, b, i + 1);
        }
    }
}

proof fn lemma_lex_le_from_antisym(a: Seq<u8>, b: Seq<u8>, i: int)
    requires
        0 <= i <= a.len(),
        i <= b.len(),
        lex_le_from(a, b, i),
        lex_le_from(b, a, i),
    ensures
        a.len() == b.len(),
        forall|j: int| i <= j < a.len() ==> a[j] == b[j],
    decreases a.len() - i,
{
    if i < a.len() && i < b.len() {
        assert(a[i] == b[i]);
        lemma_lex_le_from_antisym(a, b, i + 1);
    }
}

} // verus!
