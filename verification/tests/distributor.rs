use merkle_distributor::contract::{claim, handle, init, is_claimed, query, ClaimError, Distributor};
use merkle_distributor::hex_str::decode_hash;
use merkle_distributor::ledger::Ledger;
use merkle_distributor::merkle_proof::{
    encode_as_merkle_leaf, hash_pair, leaf_hash, u128_to_be_bytes, verify_proof,
};
use merkle_distributor::msg::{HandleMsg, InitMsg, QueryMsg};

fn to_hex(bytes: &[u8]) -> String {
    let mut s = String::new();
    for b in bytes {
        s.push_str(&format!("{:02x}", b));
    }
    s
}

struct Tree {
    leaves: Vec<Vec<u8>>,
    n01: Vec<u8>,
    n23: Vec<u8>,
    root: Vec<u8>,
}

/// A four-leaf tree for indices 0..=3, with fixed recipients and amounts.
fn canonical(i: u128) -> Vec<u8> {
    let mut v = vec![0u8; 20];
    v[19] = 0x10 + i as u8;
    v
}

fn amount_of(i: u128) -> u128 {
    100 * (i + 1)
}

fn build_tree() -> Tree {
    let leaves: Vec<Vec<u8>> =
        (0..4u128).map(|i| leaf_hash(i, &canonical(i), amount_of(i))).collect();
    let n01 = hash_pair(&leaves[0], &leaves[1]);
    let n23 = hash_pair(&leaves[2], &leaves[3]);
    let root = hash_pair(&n01, &n23);
    Tree { leaves, n01, n23, root }
}

/// The proof for leaf `i`: its sibling leaf, then the sibling inner node.
fn proof_for(t: &Tree, i: usize) -> Vec<String> {
    let sibling_leaf = &t.leaves[i ^ 1];
    let sibling_node = if i < 2 { &t.n23 } else { &t.n01 };
    vec![to_hex(sibling_leaf), to_hex(sibling_node)]
}

fn decoded_proof_for(t: &Tree, i: usize) -> Vec<Vec<u8>> {
    proof_for(t, i).iter().map(|s| decode_hash(s).unwrap()).collect()
}

fn init_distributor(t: &Tree) -> Distributor {
    let mut d = Distributor::new();
    init(
        &mut d,
        InitMsg {
            token_addr: String::from("token-contract"),
            token_hash: String::from("token-code-hash"),
            merkle_root: to_hex(&t.root),
        },
    );
    d
}

#[test]
fn u128_be_bytes_known_value() {
    let b = u128_to_be_bytes(258);
    assert_eq!(b.len(), 16);
    assert_eq!(&b[..14], &[0u8; 14]);
    assert_eq!(b[14], 1);
    assert_eq!(b[15], 2);
    let max = u128_to_be_bytes(u128::MAX);
    assert_eq!(max, vec![0xffu8; 16]);
}

#[test]
fn encode_leaf_layout_exact() {
    let encoded = encode_as_merkle_leaf(1, &vec![0xab, 0xcd], 2);
    let mut expected = vec![0u8; 16];
    expected[15] = 1;
    expected.extend_from_slice(&[0xab, 0xcd]);
    let mut amt = vec![0u8; 16];
    amt[15] = 2;
    expected.extend_from_slice(&amt);
    assert_eq!(encoded, expected);
}

#[test]
fn keccak_agrees_with_the_hash_crate() {
    let encoded = encode_as_merkle_leaf(0, &vec![], 0);
    let direct: Vec<u8> = web3::signing::keccak256(&encoded).to_vec();
    assert_eq!(leaf_hash(0, &vec![], 0), direct);
    // Hashing is not the identity on its input.
    assert_ne!(leaf_hash(0, &vec![], 0), encoded);
}

#[test]
fn decode_hash_known_bytes() {
    let s = format!("00ff10{}", "a1".repeat(29));
    let b = decode_hash(&s).unwrap();
    assert_eq!(b.len(), 32);
    assert_eq!(b[0], 0x00);
    assert_eq!(b[1], 0xff);
    assert_eq!(b[2], 0x10);
    assert_eq!(b[31], 0xa1);
    // Upper case decodes to the same bytes.
    assert_eq!(decode_hash(&s.to_uppercase()).unwrap(), b);
}

#[test]
fn decode_hash_rejects_malformed() {
    assert!(decode_hash("").is_none());
    assert!(decode_hash("00ff").is_none());
    let bad = format!("zz{}", "00".repeat(31));
    assert!(decode_hash(&bad).is_none());
    let too_long = "00".repeat(33);
    assert!(decode_hash(&too_long).is_none());
}

#[test]
fn empty_proof_verifies_iff_leaf_equals_root() {
    let leaf = leaf_hash(7, &canonical(0), 1);
    let other = leaf_hash(8, &canonical(0), 1);
    assert!(verify_proof(vec![], &leaf.clone(), leaf.clone()));
    assert!(!verify_proof(vec![], &other, leaf));
}

#[test]
fn hash_pair_ignores_operand_order() {
    let a = leaf_hash(0, &canonical(0), 5);
    let b = leaf_hash(1, &canonical(1), 6);
    assert_eq!(hash_pair(&a, &b), hash_pair(&b, &a));
}

#[test]
fn proof_content_order_matters() {
    let t = build_tree();
    let good = decoded_proof_for(&t, 2);
    assert!(verify_proof(good.clone(), &t.root, t.leaves[2].clone()));
    let swapped = vec![good[1].clone(), good[0].clone()];
    assert!(!verify_proof(swapped, &t.root, t.leaves[2].clone()));
}

#[test]
fn verify_rejects_single_bit_flips() {
    let t = build_tree();
    let proof = decoded_proof_for(&t, 2);
    assert!(verify_proof(proof.clone(), &t.root, t.leaves[2].clone()));
    // A leaf derived from a flipped amount fails against the same proof.
    let flipped_amount = leaf_hash(2, &canonical(2), amount_of(2) ^ 1);
    assert!(!verify_proof(proof.clone(), &t.root, flipped_amount));
    // So does one derived from a flipped index.
    let flipped_index = leaf_hash(3, &canonical(2), amount_of(2));
    assert!(!verify_proof(proof, &t.root, flipped_index));
}

#[test]
fn ledger_word_boundaries() {
    let mut l = Ledger::new();
    for i in [0u128, 127, 128, 129] {
        assert!(!l.is_claimed(i));
    }
    l.set_claimed(128);
    assert!(l.is_claimed(128));
    for i in [0u128, 127, 129] {
        assert!(!l.is_claimed(i));
    }
    l.set_claimed(0);
    l.set_claimed(127);
    l.set_claimed(129);
    for i in [0u128, 127, 128, 129] {
        assert!(l.is_claimed(i));
    }
    assert!(!l.is_claimed(130));
}

#[test]
fn end_to_end_claim_of_index_two() {
    let t = build_tree();
    let mut d = init_distributor(&t);
    for i in 0..4u128 {
        assert!(!is_claimed(&d, i));
    }
    let r = claim(
        &mut d,
        2,
        String::from("recipient-two"),
        Some(canonical(2)),
        amount_of(2),
        proof_for(&t, 2),
    );
    let instr = r.expect("a valid claim must succeed");
    assert_eq!(instr.amount, amount_of(2));
    assert_eq!(instr.recipient, "recipient-two");
    assert_eq!(instr.token_addr, "token-contract");
    assert_eq!(instr.token_hash, "token-code-hash");
    assert!(is_claimed(&d, 2));
    assert!(!is_claimed(&d, 0));
    assert!(!is_claimed(&d, 1));
    assert!(!is_claimed(&d, 3));
}

#[test]
fn second_claim_fails_with_already_claimed() {
    let t = build_tree();
    let mut d = init_distributor(&t);
    let ok = claim(
        &mut d,
        1,
        String::from("recipient-one"),
        Some(canonical(1)),
        amount_of(1),
        proof_for(&t, 1),
    );
    assert!(ok.is_ok());
    let again = claim(
        &mut d,
        1,
        String::from("recipient-one"),
        Some(canonical(1)),
        amount_of(1),
        proof_for(&t, 1),
    );
    assert_eq!(again.unwrap_err(), ClaimError::AlreadyClaimed);
    assert!(is_claimed(&d, 1));
}

#[test]
fn sibling_proof_fails_with_invalid_proof() {
    let t = build_tree();
    let mut d = init_distributor(&t);
    // Index 3's proof cannot authorize index 2's claim.
    let r = claim(
        &mut d,
        2,
        String::from("recipient-two"),
        Some(canonical(2)),
        amount_of(2),
        proof_for(&t, 3),
    );
    assert_eq!(r.unwrap_err(), ClaimError::InvalidProof);
    assert!(!is_claimed(&d, 2));
}

#[test]
fn claim_before_init_fails_with_configuration_missing() {
    let t = build_tree();
    let mut d = Distributor::new();
    let r = claim(
        &mut d,
        0,
        String::from("recipient-zero"),
        Some(canonical(0)),
        amount_of(0),
        proof_for(&t, 0),
    );
    assert_eq!(r.unwrap_err(), ClaimError::ConfigurationMissing);
}

#[test]
fn unresolved_recipient_fails_with_invalid_recipient() {
    let t = build_tree();
    let mut d = init_distributor(&t);
    let r = claim(&mut d, 0, String::from("recipient-zero"), None, amount_of(0), proof_for(&t, 0));
    assert_eq!(r.unwrap_err(), ClaimError::InvalidRecipient);
    assert!(!is_claimed(&d, 0));
}

#[test]
fn malformed_proof_element_is_rejected_before_verification() {
    let t = build_tree();
    let mut d = init_distributor(&t);
    let mut p = proof_for(&t, 0);
    p[1] = String::from("not-hex");
    let r = claim(&mut d, 0, String::from("recipient-zero"), Some(canonical(0)), amount_of(0), p);
    assert_eq!(r.unwrap_err(), ClaimError::MalformedProofEncoding);
    assert!(!is_claimed(&d, 0));
}

#[test]
fn handle_dispatches_claim() {
    let t = build_tree();
    let mut d = init_distributor(&t);
    let msg = HandleMsg::Claim {
        index: 3,
        address: String::from("recipient-three"),
        amount: amount_of(3),
        proof: proof_for(&t, 3),
    };
    let r = handle(&mut d, msg, Some(canonical(3)));
    let instr = r.expect("a valid claim must succeed");
    assert_eq!(instr.amount, amount_of(3));
    assert!(query(&d, QueryMsg::IsClaimed { index: 3 }));
    assert!(!query(&d, QueryMsg::IsClaimed { index: 0 }));
}

#[test]
fn wrong_amount_fails_with_invalid_proof() {
    let t = build_tree();
    let mut d = init_distributor(&t);
    let r = claim(
        &mut d,
        2,
        String::from("recipient-two"),
        Some(canonical(2)),
        amount_of(2) + 1,
        proof_for(&t, 2),
    );
    assert_eq!(r.unwrap_err(), ClaimError::InvalidProof);
    assert!(!is_claimed(&d, 2));
}
