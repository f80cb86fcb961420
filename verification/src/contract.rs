//! The claim orchestrator: the use-case entry points over the stored
//! configuration and the claim ledger.
//!
//! A claim is checked through a fixed sequence of checks — already claimed,
//! configuration present, recipient resolved, proof well-formed, proof
//! valid — and only after every check passes is the ledger bit set and a
//! single transfer instruction emitted. Any failure leaves the stored
//! state exactly as it was.
//!
//! Recipient resolution is the host's job: callers resolve the
//! human-readable address to its canonical bytes and pass the result in,
//! `None` standing for a failed resolution. The host is also expected to
//! serialize claim operations against one store; the check-then-set
//! pattern here is race-free only under that guarantee.

use vstd::prelude::*;

use crate::hex_str::{decode_hash, is_hex_str, spec_hex_bytes};
use crate::ledger::Ledger;
use crate::merkle_proof::{keccak_of, leaf_hash, spec_encode_leaf, spec_verify, verify_proof};
use crate::msg::{HandleMsg, InitMsg, QueryMsg};
use crate::state::State;

verus! {

/// Why a claim was rejected. Every rejection is terminal for the
/// operation and leaves persisted state untouched.
#[derive(Clone, Copy, Debug, PartialEq, Eq, Structural)]
pub enum ClaimError {
    /// The index's ledger bit is already set.
    AlreadyClaimed,
    /// No configuration was stored yet.
    ConfigurationMissing,
    /// The recipient did not resolve to canonical bytes.
    InvalidRecipient,
    /// A proof element is not a well-formed hex-encoded 32-byte hash.
    MalformedProofEncoding,
    /// The recomputed root does not match the stored root.
    InvalidProof,
}

/// The one transfer a successful claim authorizes: `amount` of the
/// configured token to the claimed recipient. Emitting it is the host's
/// job; the orchestrator never moves funds itself.
#[derive(Debug)]
pub struct TransferInstruction {
    pub recipient: String,
    pub amount: u128,
    pub token_addr: String,
    pub token_hash: String,
}

/// The distributor: the write-once configuration and the claim ledger.
pub struct Distributor {
    state: Option<State>,
    ledger: Ledger,
}

impl Distributor {
    /// The stored configuration, if initialization has run.
    pub closed spec fn spec_state(self) -> Option<State> {
        self.state
    }

    /// Whether `index` is recorded as claimed.
    pub closed spec fn spec_is_claimed(self, index: u128) -> bool {
        self.ledger.spec_is_claimed(index)
    }

    /// A stored configuration always holds a 32-byte root.
    pub open spec fn wf(self) -> bool {
        match self.spec_state() {
            Some(st) => st.wf(),
            None => true,
        }
    }

    /// Whether initialization has stored a configuration.
    pub fn is_initialized(&self) -> (r: bool)
        ensures
            r == (self.spec_state() is Some),
    {
        match &self.state {
            Some(_) => true,
            None => false,
        }
    }

    /// A fresh, uninitialized distributor: no configuration, no index
    /// claimed.
    pub fn new() -> (r: Distributor)
        ensures
            r.wf(),
            r.spec_state() is None,
            forall|i: u128| !r.spec_is_claimed(i),
    {
        Distributor { state: None, ledger: Ledger::new() }
    }
}

/// Whether every proof element spells a 32-byte hash in hex.
pub open spec fn spec_proof_ok(elems: Seq<Seq<char>>) -> bool {
    forall|i: int| 0 <= i < elems.len() ==> is_hex_str(elems[i], 32)
}

/// The bytes each proof element decodes to.
pub open spec fn spec_decode_proof(elems: Seq<Seq<char>>) -> Seq<Seq<u8>> {
    Seq::new(elems.len(), |i: int| spec_hex_bytes(elems[i]))
}

/// The outcome of the claim checks, in its fixed order: an already
/// claimed index, then a missing configuration, then a recipient that did
/// not resolve, then a malformed proof element, then a proof that fails to
/// reproduce the root. Only when every check passes is the claim accepted.
pub open spec fn spec_claim_outcome(
    d: Distributor,
    index: u128,
    canonical: Option<Seq<u8>>,
    amount: u128,
    elems: Seq<Seq<char>>,
) -> Result<(), ClaimError> {
    if d.spec_is_claimed(index) {
        Err(ClaimError::AlreadyClaimed)
    } else {
        match d.spec_state() {
            None => Err(ClaimError::ConfigurationMissing),
            Some(st) => match canonical {
                None => Err(ClaimError::InvalidRecipient),
                Some(canon) => if !spec_proof_ok(elems) {
                    Err(ClaimError::MalformedProofEncoding)
                } else if !spec_verify(
                    spec_decode_proof(elems),
                    st.merkle_root@,
                    keccak_of(spec_encode_leaf(index, canon, amount)),
                ) {
                    Err(ClaimError::InvalidProof)
                } else {
                    Ok(())
                },
            },
        }
    }
}

/// What a finished claim guarantees: the configuration is never altered;
/// the result agrees with the claim checks; a rejection leaves every
/// ledger bit as it was; an acceptance sets exactly the claimed index's
/// bit and pays exactly the claimed amount to the claimed recipient
/// through the configured token.
pub open spec fn claim_post(
    pre: Distributor,
    post: Distributor,
    index: u128,
    address: Seq<char>,
    canonical: Option<Seq<u8>>,
    amount: u128,
    elems: Seq<Seq<char>>,
    r: Result<TransferInstruction, ClaimError>,
) -> bool {
    &&& post.wf()
    &&& post.spec_state() == pre.spec_state()
    &&& match r {
        Ok(t) => match pre.spec_state() {
            Some(st) => {
                &&& spec_claim_outcome(pre, index, canonical, amount, elems) == Ok::<
                    (),
                    ClaimError,
                >(())
                &&& t.recipient@ == address
                &&& t.amount == amount
                &&& t.token_addr@ == st.token_addr@
                &&& t.token_hash@ == st.token_hash@
                &&& forall|j: u128| post.spec_is_claimed(j) == (j == index || pre.spec_is_claimed(j))
            },
            None => false,
        },
        Err(e) => {
            &&& spec_claim_outcome(pre, index, canonical, amount, elems) == Err::<(), ClaimError>(e)
            &&& forall|j: u128| post.spec_is_claimed(j) == pre.spec_is_claimed(j)
        },
    }
}

/// Store the write-once configuration: the token reference and the
/// Merkle root, decoded from its 64-digit hex wire form. The ledger is
/// untouched.
pub fn init(d: &mut Distributor, msg: InitMsg)
    requires
        old(d).wf(),
        old(d).spec_state() is None,
        is_hex_str(msg.merkle_root@, 32),
    ensures
        final(d).wf(),
        match final(d).spec_state() {
            Some(st) => {
                &&& st.token_addr@ == msg.token_addr@
                &&& st.token_hash@ == msg.token_hash@
                &&& st.merkle_root@ == spec_hex_bytes(msg.merkle_root@)
            },
            None => false,
        },
        forall|i: u128| final(d).spec_is_claimed(i) == old(d).spec_is_claimed(i),
{
    let root = match decode_hash(msg.merkle_root.as_str()) {
        Some(b) => b,
        None => {
            proof {
                assert(false);
            }
            Vec::new()
        },
    };
    d.state = Some(
        State { token_addr: msg.token_addr, token_hash: msg.token_hash, merkle_root: root },
    );
}

/// Decode each hex proof element into its 32 bytes; `None` exactly when
/// some element is malformed.
fn decode_proof(elems: &Vec<String>) -> (r: Option<Vec<Vec<u8>>>)
    ensures
        match r {
            Some(v) => spec_proof_ok(elems.deep_view()) && v.deep_view() == spec_decode_proof(
                elems.deep_view(),
            ),
            None => !spec_proof_ok(elems.deep_view()),
        },
{
    let mut out: Vec<Vec<u8>> = Vec::new();
    let mut i: usize = 0;
    while i < elems.len()
        invariant
            i <= elems@.len(),
            out@.len() == i,
            forall|k: int| 0 <= k < i ==> is_hex_str(elems.deep_view()[k], 32),
            forall|k: int| 0 <= k < i ==> out@[k]@ == spec_hex_bytes(elems.deep_view()[k]),
        decreases elems@.len() - i,
    {
        proof {
            assert(elems.deep_view()[i as int] == elems@[i as int]@);
        }
        match decode_hash(elems[i].as_str()) {
            Some(b) => {
                out.push(b);
            },
            None => {
                return None;
            },
        }
        i = i + 1;
    }
    proof {
        assert forall|k: int| 0 <= k < out@.len() implies out.deep_view()[k] == spec_decode_proof(
            elems.deep_view(),
        )[k] by {
            assert(out.deep_view()[k] =~= out@[k]@);
        }
        assert(out.deep_view() =~= spec_decode_proof(elems.deep_view()));
    }
    Some(out)
}

/// Run one claim through the claim checks; on acceptance mark the
/// index as spent and return the single transfer instruction. `canonical`
/// is the host's resolution of `address` to its canonical bytes, `None`
/// when resolution failed. No check mutates anything; only an accepted
/// claim writes one ledger bit.
pub fn claim(
    d: &mut Distributor,
    index: u128,
    address: String,
    canonical: Option<Vec<u8>>,
    amount: u128,
    proof: Vec<String>,
) -> (r: Result<TransferInstruction, ClaimError>)
    requires
        old(d).wf(),
    ensures
        claim_post(
            *old(d),
            *final(d),
            index,
            address@,
            canonical.deep_view(),
            amount,
            proof.deep_view(),
            r,
        ),
{
    if d.ledger.is_claimed(index) {
        return Err(ClaimError::AlreadyClaimed);
    }
    let (token_addr, token_hash) = match &d.state {
        None => {
            return Err(ClaimError::ConfigurationMissing);
        },
        Some(st) => (st.token_addr.clone(), st.token_hash.clone()),
    };
    let canon = match &canonical {
        None => {
            return Err(ClaimError::InvalidRecipient);
        },
        Some(c) => c,
    };
    proof {
        assert(canon.deep_view() =~= canon@);
        assert(canonical.deep_view() == Some(canon@));
    }
    let decoded = match decode_proof(&proof) {
        None => {
            return Err(ClaimError::MalformedProofEncoding);
        },
        Some(v) => v,
    };
    let leaf = leaf_hash(index, canon, amount);
    let valid = match &d.state {
        Some(st) => verify_proof(decoded, &st.merkle_root, leaf),
        None => {
            proof {
                assert(false);
            }
            false
        },
    };
    if !valid {
        return Err(ClaimError::InvalidProof);
    }
    d.ledger.set_claimed(index);
    Ok(
        TransferInstruction {
            recipient: address,
            amount: amount,
            token_addr: token_addr,
            token_hash: token_hash,
        },
    )
}

/// Dispatch an incoming state-changing request. `canonical` is the
/// host's resolution of the request's address, as for `claim`.
pub fn handle(d: &mut Distributor, msg: HandleMsg, canonical: Option<Vec<u8>>) -> (r: Result<
    TransferInstruction,
    ClaimError,
>)
    requires
        old(d).wf(),
    ensures
        match msg {
            HandleMsg::Claim { index, address, amount, proof } => claim_post(
                *old(d),
                *final(d),
                index,
                address@,
                canonical.deep_view(),
                amount,
                proof.deep_view(),
                r,
            ),
        },
{
    match msg {
        HandleMsg::Claim { index, address, amount, proof } => claim(
            d,
            index,
            address,
            canonical,
            amount,
            proof,
        ),
    }
}

/// Read the claimed bit for `index`. A pure read: it has no side effects
/// and cannot fail.
pub fn is_claimed(d: &Distributor, index: u128) -> (r: bool)
    ensures
        r == d.spec_is_claimed(index),
{
    d.ledger.is_claimed(index)
}

/// Answer a read-only request.
pub fn query(d: &Distributor, msg: QueryMsg) -> (r: bool)
    ensures
        match msg {
            QueryMsg::IsClaimed { index } => r == d.spec_is_claimed(index),
        },
{
    match msg {
        QueryMsg::IsClaimed { index } => is_claimed(d, index),
    }
}

/// A claim succeeds at most once: after a run of `claim` accepted
/// `index`, a second claim for the same index — whatever recipient,
/// amount or proof it carries — is rejected as already claimed.
pub proof fn lemma_second_claim_rejected(
    pre: Distributor,
    post: Distributor,
    index: u128,
    address: Seq<char>,
    canonical: Option<Seq<u8>>,
    amount: u128,
    elems: Seq<Seq<char>>,
    r: Result<TransferInstruction, ClaimError>,
    canonical2: Option<Seq<u8>>,
    amount2: u128,
    elems2: Seq<Seq<char>>,
)
    requires
        claim_post(pre, post, index, address, canonical, amount, elems, r),
        r is Ok,
    ensures
        post.spec_is_claimed(index),
        spec_claim_outcome(post, index, canonical2, amount2, elems2) == Err::<(), ClaimError>(
            ClaimError::AlreadyClaimed,
        ),
{
    lemma_claim_at_most_once(post, index, canonical2, amount2, elems2);
}

/// Once an index is recorded as claimed, every later claim for it —
/// whatever recipient, amount or proof it carries — is rejected as
/// already claimed.
pub proof fn lemma_claim_at_most_once(
    d: Distributor,
    index: u128,
    canonical: Option<Seq<u8>>,
    amount: u128,
    elems: Seq<Seq<char>>,
)
    requires
        d.spec_is_claimed(index),
    ensures
        spec_claim_outcome(d, index, canonical, amount, elems) == Err::<(), ClaimError>(
            ClaimError::AlreadyClaimed,
        ),
{
}

} // verus!
