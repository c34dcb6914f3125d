//! The content-hashing primitive consumed by the hash proof scheme.

use vstd::prelude::*;

verus! {

/// The 32-byte blake2b-256 digest of a byte string, a function of the bytes
/// alone.
pub uninterp spec fn blake2_256_of(data: Seq<u8>) -> Seq<u8>;

/// Relies on `sp_crypto_hashing::blake2_256`: a pure blake2b digest of the
/// input bytes, 32 bytes long, depending on the bytes alone.
#[verifier::external_body]
pub(crate) fn blake2_256(data: &[u8]) -> (r: Vec<u8>)
    ensures
        r@ == blake2_256_of(data@),
        r@.len() == 32,
{
    sp_crypto_hashing::blake2_256(data).to_vec()
}

} // verus!
