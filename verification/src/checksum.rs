//! Checksums of stored entries.
use vstd::prelude::*;

use blake2::digest::consts::U32;
use blake2::{Blake2b, Digest};

verus! {

/// The BLAKE2b hash with a 32-byte output of `data`.
pub uninterp spec fn blake2b256(data: Seq<u8>) -> [u8; 32];

/// Hashes `data` with BLAKE2b, 32-byte output, no key, salt or personalization, by
/// `blake2::Blake2b::<U32>::digest`. The contract names the result: it is the BLAKE2b-256 hash
/// of the bytes handed in, and nothing more is claimed of it.
#[verifier::external_body]
pub fn blake2b256_digest(data: &[u8]) -> (r: [u8; 32])
    ensures
        r == blake2b256(data@),
{
    Blake2b::<U32>::digest(data).into()
}

} // verus!
