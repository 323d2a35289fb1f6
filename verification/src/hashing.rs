//! The one-way digests the contracts rely on, and hexadecimal rendering.
//!
//! A digest's value is not written out here: it is named, and everything
//! the contracts prove holds for whatever the named function returns.

use sha2::Digest;
use vstd::prelude::*;

verus! {

/// What `sha2::Sha256` returns for a byte string; a function of the input
/// alone.
pub uninterp spec fn sha256_of(bytes: Seq<u8>) -> Seq<u8>;

/// What `sha3::Sha3_256` returns for a byte string; a function of the
/// input alone.
pub uninterp spec fn sha3_256_of(bytes: Seq<u8>) -> Seq<u8>;

/// Relies on `sha2::Sha256::digest`: a 32-byte digest depending on the
/// input bytes alone.
#[verifier::external_body]
pub fn sha256(input: &[u8]) -> (r: Vec<u8>)
    ensures
        r@ == sha256_of(input@),
        r@.len() == 32,
{
    sha2::Sha256::digest(input).to_vec()
}

/// Relies on `sha3::Sha3_256::digest`: a 32-byte digest depending on the
/// input bytes alone.
#[verifier::external_body]
pub fn sha3_256(input: &[u8]) -> (r: Vec<u8>)
    ensures
        r@ == sha3_256_of(input@),
        r@.len() == 32,
{
    sha3::Sha3_256::digest(input).to_vec()
}

/// The lowercase hexadecimal digit for a value below sixteen.
pub open spec fn hex_digit(n: u8) -> char {
    if n < 10 {
        (48 + n) as char
    } else {
        (87 + n) as char
    }
}

/// The lowercase hexadecimal rendering of a byte string: for each byte the
/// high nibble's digit, then the low nibble's, in input order.
pub open spec fn hex_of(bytes: Seq<u8>) -> Seq<char>
    decreases bytes.len(),
{
    if bytes.len() == 0 {
        Seq::empty()
    } else {
        seq![hex_digit(bytes[0] / 16), hex_digit(bytes[0] % 16)] + hex_of(bytes.drop_first())
    }
}

/// Relies on `hex::encode`: each byte becomes its two lowercase digits,
/// high nibble first, in input order.
#[verifier::external_body]
pub fn hex_encode(input: &[u8]) -> (r: String)
    ensures
        r@ == hex_of(input@),
{
    hex::encode(input)
}

} // verus!
