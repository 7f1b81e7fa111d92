//! Reading this node's secret key from its hexadecimal form.
use vstd::prelude::*;

verus! {

/// Bytes of an ed25519 secret key.
pub const SECRET_KEY_SIZE: usize = 32;

/// The value of one hexadecimal digit, in either case.
pub open spec fn hex_digit(c: u8) -> Option<u8> {
    if 48 <= c <= 57 {
        Some((c - 48) as u8)
    } else if 97 <= c <= 102 {
        Some((c - 87) as u8)
    } else if 65 <= c <= 70 {
        Some((c - 55) as u8)
    } else {
        None
    }
}

/// The `n` bytes that the text `s` spells in hexadecimal, two digits a byte,
/// high digit first; `None` unless `s` is exactly `2 * n` digits.
pub open spec fn spec_decode_hex(s: Seq<u8>, n: nat) -> Option<Seq<u8>> {
    if s.len() == 2 * n && forall|i: int| 0 <= i < s.len() ==> #[trigger] hex_digit(s[i]) is Some {
        Some(
            Seq::new(
                n,
                |i: int| (hex_digit(s[2 * i])->Some_0 * 16 + hex_digit(s[2 * i + 1])->Some_0) as u8,
            ),
        )
    } else {
        None
    }
}

/// Relies on hex::decode_to_slice: it fills the 32 bytes from exactly 64
/// hexadecimal digits of either case, and fails on any other input.
#[verifier::external_body]
fn decode_hex_32(s: &[u8]) -> (r: Option<[u8; SECRET_KEY_SIZE]>)
    ensures
        match r {
            Some(a) => spec_decode_hex(s@, SECRET_KEY_SIZE as nat) == Some(a@),
            None => spec_decode_hex(s@, SECRET_KEY_SIZE as nat) is None,
        },
{
    let mut out = [0u8; SECRET_KEY_SIZE];
    match hex::decode_to_slice(s, &mut out) {
        Ok(()) => Some(out),
        Err(_) => None,
    }
}

/// Why a configured secret key was refused.
#[derive(Debug, Clone, Copy, PartialEq, Eq, Structural)]
pub enum KeyError {
    /// The key is not 64 hexadecimal digits.
    InvalidHex,
}

/// The secret key bytes that the configured text `key` spells in
/// hexadecimal.
pub fn decode_secret_key(key: &[u8]) -> (r: Result<[u8; SECRET_KEY_SIZE], KeyError>)
    ensures
        match r {
            Ok(a) => spec_decode_hex(key@, SECRET_KEY_SIZE as nat) == Some(a@),
            Err(e) => e == KeyError::InvalidHex && spec_decode_hex(key@, SECRET_KEY_SIZE as nat) is None,
        },
{
    match decode_hex_32(key) {
        Some(a) => Ok(a),
        None => Err(KeyError::InvalidHex),
    }
}

} // verus!
