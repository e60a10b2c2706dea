//! The BLAKE2s-256 digest that peer identities and ray identifiers rest on.
use vstd::prelude::*;
use blake2::{Blake2s256, Digest};

verus! {

/// The BLAKE2s-256 digest of a byte string, as computed by the `blake2` crate.
pub uninterp spec fn spec_blake2s256(data: Seq<u8>) -> Seq<u8>;

/// Calls `blake2::Blake2s256::digest` on `data`.
///
/// Trusted: the 32 returned bytes are the `blake2` digest of `data`; nothing
/// else is claimed of their value.
#[verifier::external_body]
pub(crate) fn blake2s256(data: &[u8]) -> (digest: [u8; 32])
    ensures
        digest@ == spec_blake2s256(data@),
{
    Blake2s256::digest(data).into()
}

} // verus!
