//! Content addressing: values are keyed by the digest of their canonical
//! byte encoding.

use vstd::prelude::*;

verus! {

/// The digest that the hashing routine assigns to a byte string. No
/// definition is given: the name stands for whatever `blake2b_simd::blake2b`
/// returns, which is a function of the input bytes alone. Every digest is
/// 64 bytes long, so the empty byte string is never a digest; the empty
/// string therefore serves as the "unset" content identifier.
pub uninterp spec fn digest_of(bytes: Seq<u8>) -> Seq<u8>;

/// Relies on blake2b_simd::blake2b: the BLAKE2b digest, at its default
/// output length of 64 bytes, depends on the input bytes alone.
#[verifier::external_body]
pub(crate) fn blake2b_digest(bytes: &Vec<u8>) -> (r: Vec<u8>)
    ensures
        r@ == digest_of(bytes@),
        r@.len() == 64,
{
    blake2b_simd::blake2b(bytes.as_slice()).as_bytes().to_vec()
}

} // verus!
