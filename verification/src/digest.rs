use sha2::{Digest, Sha256};
use vstd::prelude::*;
use crate::text::{hex_bytes, hex_of_bytes};

verus! {

/// The SHA-256 digest of a byte string.
pub uninterp spec fn sha256(bytes: Seq<u8>) -> Seq<u8>;

/// `sha2::Sha256::digest`: the 32-byte SHA-256 digest of `bytes`, a function
/// of the bytes alone; nothing else about its value is stated.
#[verifier::external_body]
fn sha256_digest(bytes: &[u8]) -> (r: Vec<u8>)
    ensures
        r@ == sha256(bytes@),
        r@.len() == 32,
{
    Sha256::digest(bytes).to_vec()
}

/// The digest of a serialized run specification: the lowercase hex of the
/// SHA-256 of its bytes (64 characters).
pub fn spec_digest_of(serialized: &[u8]) -> (r: String)
    ensures
        r@ == hex_bytes(sha256(serialized@)),
        r@.len() == 64,
{
    let d = sha256_digest(serialized);
    proof {
        crate::text::lemma_hex_bytes_len(d@);
    }
    hex_of_bytes(d.as_slice())
}

} // verus!
