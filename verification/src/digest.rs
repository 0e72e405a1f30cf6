//! Content hashing: the per-file digest recorded in checksum manifests.

use vstd::prelude::*;

use crate::hexfmt::{hex, hex_of};

verus! {

/// The SHA-256 digest of a byte string. The algorithm itself is supplied by
/// an outside crate; the library only names its result, which depends on
/// the input bytes alone.
pub uninterp spec fn sha256_of(bytes: Seq<u8>) -> Seq<u8>;

/// Relies on the sha2 crate's `Sha256` through the `Digest` trait's
/// `digest` convenience function: the digest is a pure function of the
/// input bytes and is 32 bytes long.
#[verifier::external_body]
fn sha256_digest(bytes: &[u8]) -> (r: Vec<u8>)
    ensures
        r@ == sha256_of(bytes@),
        r@.len() == 32,
{
    <sha2::Sha256 as sha2::Digest>::digest(bytes).to_vec()
}

/// The hex-rendered content digest recorded for one copied file.
pub open spec fn content_digest_of(bytes: Seq<u8>) -> Seq<char> {
    hex_of(sha256_of(bytes))
}

/// Computes the hex-rendered SHA-256 digest of one file's contents.
pub fn sha256(contents: &[u8]) -> (s: String)
    ensures
        s@ == content_digest_of(contents@),
{
    let d = sha256_digest(contents);
    hex(d.as_slice())
}

} // verus!
