//! Integrity verification: the content digest of an image, rendered as
//! lower-case hexadecimal text and compared against a manifest's declared
//! value.

use vstd::prelude::*;
use sha1::Digest;
use crate::hexutil::hex_char_of;
use crate::textutil::str_eq;

verus! {

/// Lower-case hexadecimal text of a byte string, two digits per byte.
pub open spec fn hex_of_bytes(b: Seq<u8>) -> Seq<char>
    decreases b.len(),
{
    if b.len() == 0 {
        Seq::empty()
    } else {
        hex_of_bytes(b.drop_last()) + seq![
            hex_char_of(b.last() as int / 16),
            hex_char_of(b.last() as int % 16),
        ]
    }
}

/// Hexadecimal text is two characters per byte.
pub proof fn lemma_hex_of_bytes_len(b: Seq<u8>)
    ensures
        hex_of_bytes(b).len() == 2 * b.len(),
    decreases b.len(),
{
    if b.len() > 0 {
        lemma_hex_of_bytes_len(b.drop_last());
    }
}

/// The SHA-1 digest of a byte string: twenty bytes that depend on the
/// input alone.
pub uninterp spec fn sha1_of(data: Seq<u8>) -> Seq<u8>;

/// Relies on sha1::Sha1::digest: the 20-byte SHA-1 digest of `data`, a
/// function of `data` alone.
#[verifier::external_body]
fn sha1_bytes(data: &[u8]) -> (r: Vec<u8>)
    ensures
        r@ == sha1_of(data@),
        r@.len() == 20,
{
    sha1::Sha1::digest(data).as_slice().to_vec()
}

/// Relies on hex::encode: lower-case hexadecimal text, two digits per byte.
#[verifier::external_body]
fn hex_encode(data: &[u8]) -> (r: String)
    ensures
        r@ == hex_of_bytes(data@),
{
    hex::encode(data)
}

/// The content digest of an image: exactly forty characters of
/// lower-case hexadecimal text, the 160-bit digest two characters per
/// byte.
pub fn digest_of(data: &Vec<u8>) -> (r: String)
    ensures
        r@ == hex_of_bytes(sha1_of(data@)),
        r@.len() == 40,
{
    let d = sha1_bytes(data.as_slice());
    proof {
        lemma_hex_of_bytes_len(d@);
    }
    hex_encode(d.as_slice())
}

/// Whether the image's digest equals the expected text.
pub fn digest_matches(data: &Vec<u8>, expected: &str) -> (r: bool)
    ensures
        r == (expected@ == hex_of_bytes(sha1_of(data@))),
{
    let d = digest_of(data);
    str_eq(expected, d.as_str())
}

} // verus!
