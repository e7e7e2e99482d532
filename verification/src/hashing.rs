//! SHA-256 digests of text, used as the keys under which records are stored.

use sha2::{Digest, Sha256};
use vstd::prelude::*;
use vstd::utf8::encode_utf8;

verus! {

broadcast use vstd::array::group_array_axioms;

/// The SHA-256 digest of a byte sequence, as the `sha2` crate computes it.
pub uninterp spec fn sha256_digest(data: Seq<u8>) -> Seq<u8>;

/// Calls `sha2::Sha256::digest`.
/// Trusted: the 32 bytes returned are the digest named by `sha256_digest`
/// of the bytes handed in; SHA-256 is a function of its input alone.
#[verifier::external_body]
pub(crate) fn sha256(data: &[u8]) -> (digest: [u8; 32])
    ensures
        digest@ == sha256_digest(data@),
{
    Sha256::digest(data).into()
}

/// The key of a text: the digest of its UTF-8 bytes.
pub open spec fn text_key(text: Seq<char>) -> Seq<u8> {
    sha256_digest(encode_utf8(text))
}

/// The 32-byte key under which a record named by `s` is stored.
pub fn get_id(s: &String) -> (id: [u8; 32])
    ensures
        id@ == text_key(s@),
        id@ == sha256_digest(encode_utf8(s@)),
        id@.len() == 32,
{
    sha256(s.as_str().as_bytes())
}

} // verus!
