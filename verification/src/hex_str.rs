//! Hex decoding of 32-byte hash values carried as strings.
//!
//! Roots and proof elements arrive hex-encoded, 64 digits for 32 bytes,
//! upper- or lower-case digits both accepted.

use vstd::prelude::*;

verus! {

/// Whether `c` is a hex digit.
pub open spec fn is_hex_digit(c: char) -> bool {
    (48 <= c as u32 && c as u32 <= 57) || (97 <= c as u32 && c as u32 <= 102) || (65 <= c as u32
        && c as u32 <= 70)
}

/// The value of a hex digit.
pub open spec fn hex_val(c: char) -> u8 {
    if 48 <= c as u32 && c as u32 <= 57 {
        ((c as u32) - 48) as u8
    } else if 97 <= c as u32 && c as u32 <= 102 {
        ((c as u32) - 87) as u8
    } else {
        ((c as u32) - 55) as u8
    }
}

/// Whether `s` spells a byte string of exactly `n` bytes in hex.
pub open spec fn is_hex_str(s: Seq<char>, n: int) -> bool {
    s.len() == 2 * n && (forall|i: int| 0 <= i < s.len() ==> is_hex_digit(s[i]))
}

/// The bytes spelled by a hex string: each pair of digits, high first.
pub open spec fn spec_hex_bytes(s: Seq<char>) -> Seq<u8> {
    Seq::new(s.len() / 2, |i: int| (hex_val(s[2 * i]) * 16 + hex_val(s[2 * i + 1])) as u8)
}

/// Decode one hex digit.
fn hex_digit_value(c: char) -> (r: Option<u8>)
    ensures
        match r {
            Some(v) => is_hex_digit(c) && v == hex_val(c),
            None => !is_hex_digit(c),
        },
{
    let u = c as u32;
    if 48 <= u && u <= 57 {
        Some((u - 48) as u8)
    } else if 97 <= u && u <= 102 {
        Some((u - 87) as u8)
    } else if 65 <= u && u <= 70 {
        Some((u - 55) as u8)
    } else {
        None
    }
}

/// Decode a 64-digit hex string into its 32 bytes. Returns `None` exactly
/// when the string is not 64 hex digits.
pub fn decode_hash(s: &str) -> (r: Option<Vec<u8>>)
    ensures
        match r {
            Some(bytes) => is_hex_str(s@, 32) && bytes@ == spec_hex_bytes(s@),
            None => !is_hex_str(s@, 32),
        },
{
    if s.unicode_len() != 64 {
        return None;
    }
    let mut out: Vec<u8> = Vec::new();
    let mut i: usize = 0;
    while i < 32
        invariant
            i <= 32,
            s@.len() == 64,
            out@.len() == i,
            forall|k: int| 0 <= k < 2 * i ==> is_hex_digit(s@[k]),
            forall|j: int| 0 <= j < i ==> out@[j] == spec_hex_bytes(s@)[j],
        decreases 32 - i,
    {
        let hi = match hex_digit_value(s.get_char(2 * i)) {
            Some(v) => v,
            None => {
                return None;
            },
        };
        let lo = match hex_digit_value(s.get_char(2 * i + 1)) {
            Some(v) => v,
            None => {
                return None;
            },
        };
        out.push(hi * 16 + lo);
        i = i + 1;
    }
    proof {
        assert(out@ =~= spec_hex_bytes(s@));
    }
    Some(out)
}

} // verus!
