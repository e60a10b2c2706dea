//! Byte helpers of the identity proof of work: XOR of keys, and nonces
//! checked on the digest read from its last byte.
use vstd::prelude::*;

use crate::hashing::{blake2s256, spec_blake2s256};
use crate::kbucket::key::{le_u32, meets_difficulty, u32_to_le};
use crate::kbucket::{BinaryID, BinaryKey, BinaryNonce};
use crate::{K_DIFF_MIN_BIT, K_DIFF_PRODUCED_BIT};

verus! {

/// The byte-wise XOR of two keys.
pub fn xor(one: &BinaryKey, two: &BinaryKey) -> (r: Vec<u8>)
    ensures
        r@.len() == 16,
        forall|i: int| 0 <= i < 16 ==> #[trigger] r@[i] == one@[i] ^ two@[i],
{
    let mut r: Vec<u8> = Vec::new();
    let mut i: usize = 0;
    while i < 16
        invariant
            i <= 16,
            r@.len() == i,
            forall|j: int| 0 <= j < i ==> #[trigger] r@[j] == one@[j] ^ two@[j],
        decreases 16 - i,
    {
        r.push(one[i] ^ two[i]);
        i = i + 1;
    }
    r
}

/// The digest of `id` and `nonce`, read from its last byte to its first.
pub open spec fn reversed_digest(id: Seq<u8>, nonce: Seq<u8>) -> Seq<u8> {
    spec_blake2s256(id + nonce).reverse()
}

/// The nonce `n` passes the produced difficulty, the digest read from its
/// last byte.
pub open spec fn produced_ok(id: Seq<u8>, n: u32) -> bool {
    meets_difficulty(reversed_digest(id, le_u32(n)), K_DIFF_PRODUCED_BIT as nat)
}

/// The digest of `id` followed by `nonce`, from its last byte to its first.
fn digest_reversed(id: &BinaryKey, nonce: &BinaryNonce) -> (r: Vec<u8>)
    ensures
        r@ == reversed_digest(id@, nonce@),
{
    let mut input: Vec<u8> = Vec::new();
    crate::encoding::push_bytes(&mut input, id.as_slice());
    crate::encoding::push_bytes(&mut input, nonce.as_slice());
    let digest = blake2s256(input.as_slice());
    let mut r: Vec<u8> = Vec::new();
    let mut i: usize = 32;
    while i > 0
        invariant
            i <= 32,
            digest@.len() == 32,
            r@ == digest@.skip(i as int).reverse(),
        decreases i,
    {
        i = i - 1;
        r.push(digest[i]);
        assert(r@ =~= digest@.skip(i as int).reverse());
    }
    assert(digest@.skip(0) =~= digest@);
    r
}

/// The least `u32` nonce, in little-endian bytes, whose digest with `id`,
/// read from its last byte, meets the produced difficulty; `None` if no
/// `u32` does.
pub fn compute_nonce(id: &BinaryKey) -> (r: Option<BinaryNonce>)
    ensures
        match r {
            Some(nonce) => exists|n: u32|
                #![trigger le_u32(n)]
                {
                    &&& nonce@ == le_u32(n)
                    &&& produced_ok(id@, n)
                    &&& forall|m: u32| m < n ==> !#[trigger] produced_ok(id@, m)
                },
            None => forall|m: u32| !#[trigger] produced_ok(id@, m),
        },
{
    let mut n: u64 = 0;
    while n <= 0xffff_ffff
        invariant
            n <= 0x1_0000_0000,
            forall|m: u32| m < n ==> !#[trigger] produced_ok(id@, m),
        decreases 0x1_0000_0000 - n,
    {
        let nonce = u32_to_le(n as u32);
        let digest = digest_reversed(id, &nonce);
        if verify_difficulty(digest.as_slice(), K_DIFF_PRODUCED_BIT) {
            assert(produced_ok(id@, n as u32));
            return Some(nonce);
        }
        n = n + 1;
    }
    None
}

/// Whether `nonce` is an acceptable proof of work for `id`: the digest of
/// both, read from its last byte, meets the minimum difficulty.
pub fn verify_nonce(id: &BinaryKey, nonce: &BinaryNonce) -> (r: bool)
    ensures
        r == meets_difficulty(reversed_digest(id@, nonce@), K_DIFF_MIN_BIT as nat),
{
    let digest = digest_reversed(id, nonce);
    verify_difficulty(digest.as_slice(), K_DIFF_MIN_BIT)
}

/// Read in order, the bytes show at least `difficulty` zero bits (see
/// `BinaryID::verify_difficulty`).
pub fn verify_difficulty(bytes: &[u8], difficulty: usize) -> (r: bool)
    ensures
        r == meets_difficulty(bytes@, difficulty as nat),
{
    BinaryID::verify_difficulty(bytes, difficulty)
}

} // verus!
