//! Random identifiers: fresh ids of configuration entries and calendar
//! subscription tokens, written as lowercase hexadecimal.
use vstd::prelude::*;

use rand::RngCore;

verus! {

/// Lowercase hexadecimal digit of a value below 16.
pub open spec fn hex_digit(v: nat) -> char {
    if v < 10 {
        ((v + 0x30) as u8) as char
    } else {
        ((v - 10 + 0x61) as u8) as char
    }
}

/// Lowercase hexadecimal text of bytes: two digits per byte, high nibble first.
pub open spec fn hex_spec(bytes: Seq<u8>) -> Seq<char>
    decreases bytes.len(),
{
    if bytes.len() == 0 {
        Seq::empty()
    } else {
        hex_spec(bytes.drop_last()) + seq![
            hex_digit((bytes.last() / 16) as nat),
            hex_digit((bytes.last() % 16) as nat),
        ]
    }
}

/// Hexadecimal text is twice as long as the bytes.
pub proof fn lemma_hex_len(bytes: Seq<u8>)
    ensures
        hex_spec(bytes).len() == 2 * bytes.len(),
    decreases bytes.len(),
{
    if bytes.len() > 0 {
        lemma_hex_len(bytes.drop_last());
    }
}

/// `hex::encode`: each byte as two lowercase hexadecimal digits, high nibble first.
#[verifier::external_body]
fn hex_encode(bytes: &[u8]) -> (r: String)
    ensures
        r@ == hex_spec(bytes@),
{
    hex::encode(bytes)
}

/// `rand::random::<[u8; 6]>()` (thread-local generator); any bytes may come back.
#[verifier::external_body]
pub(crate) fn random_bytes_6() -> (r: [u8; 6]) {
    rand::random::<[u8; 6]>()
}

/// `OsRng::fill_bytes` on 32 bytes (the operating system's generator; it
/// panics when the operating system cannot supply randomness); any bytes may
/// come back.
#[verifier::external_body]
fn os_random_bytes_32() -> (r: [u8; 32]) {
    let mut bytes = [0u8; 32];
    rand::rngs::OsRng.fill_bytes(&mut bytes);
    bytes
}

/// `prefix` followed by the hexadecimal text of the bytes.
pub fn prefixed_hex(prefix: &str, bytes: &[u8]) -> (r: String)
    ensures
        r@ == prefix@ + hex_spec(bytes@),
{
    let mut r = String::from_str(prefix);
    let h = hex_encode(bytes);
    r.append(h.as_str());
    r
}

/// A fresh entry id: `prefix` and twelve random hexadecimal digits.
pub fn fresh_entry_id(prefix: &str) -> (r: String)
    ensures
        exists|b: Seq<u8>| b.len() == 6 && r@ == prefix@ + hex_spec(b),
{
    let b = random_bytes_6();
    prefixed_hex(prefix, &b)
}

/// A new calendar subscription token: 32 bytes from the operating system's
/// generator as 64 hexadecimal digits.
pub fn new_token() -> (r: String)
    ensures
        exists|b: Seq<u8>| b.len() == 32 && r@ == hex_spec(b),
        r@.len() == 64,
{
    let b = os_random_bytes_32();
    let r = hex_encode(&b);
    proof {
        lemma_hex_len(b@);
    }
    r
}

} // verus!
