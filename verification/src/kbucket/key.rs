//! Peer identifiers, their proof-of-work nonce and the XOR distance.
use vstd::prelude::*;
use vstd::arithmetic::power2::{lemma2_to64, lemma_pow2_adds, pow2};
use vstd::std_specs::bits::{u8_leading_zeros, u8_trailing_zeros};

use super::BucketHeight;
use crate::encoding::EncodingError;
use crate::hashing::{blake2s256, spec_blake2s256};
use crate::{K_DIFF_MIN_BIT, K_DIFF_PRODUCED_BIT, K_ID_LEN_BYTES, K_NONCE_LEN};

verus! {

broadcast use {vstd::std_specs::bits::axiom_u8_leading_zeros, vstd::std_specs::bits::axiom_u8_trailing_zeros};

/// The identifier bytes of a peer.
pub type BinaryKey = [u8; K_ID_LEN_BYTES];

/// The proof-of-work nonce of a peer identifier.
pub type BinaryNonce = [u8; K_NONCE_LEN];

/// The little-endian bytes of a `u32`.
pub open spec fn le_u32(x: u32) -> Seq<u8> {
    seq![
        (x % 256) as u8,
        ((x / 256) % 256) as u8,
        ((x / 65536) % 256) as u8,
        (x / 16777216) as u8,
    ]
}

/// `bytes`, read in order, show at least `difficulty` zero bits: whole zero
/// bytes first, then the trailing zero bits of the next byte.
pub open spec fn meets_difficulty(bytes: Seq<u8>, difficulty: nat) -> bool
    decreases bytes.len(),
{
    if bytes.len() == 0 {
        false
    } else if difficulty <= 8 {
        u8_trailing_zeros(bytes[0]) >= difficulty
    } else {
        bytes[0] == 0 && meets_difficulty(bytes.drop_first(), (difficulty - 8) as nat)
    }
}

/// The digest that the proof of work of an identifier is checked on.
pub open spec fn nonce_digest(key: Seq<u8>, nonce: Seq<u8>) -> Seq<u8> {
    spec_blake2s256(key + nonce)
}

/// `nonce` is an acceptable proof of work for `key`.
pub open spec fn valid_nonce(key: Seq<u8>, nonce: Seq<u8>) -> bool {
    meets_difficulty(nonce_digest(key, nonce), K_DIFF_MIN_BIT as nat)
}

/// The nonce `n` produces the difficulty required when generating.
pub open spec fn produced_nonce_ok(key: Seq<u8>, n: u32) -> bool {
    meets_difficulty(nonce_digest(key, le_u32(n)), K_DIFF_PRODUCED_BIT as nat)
}

/// The highest index below `n` at which `a` and `b` differ.
pub open spec fn highest_diff(a: Seq<u8>, b: Seq<u8>, n: int) -> Option<int>
    decreases n,
{
    if n <= 0 {
        None
    } else if a[n - 1] != b[n - 1] {
        Some(n - 1)
    } else {
        highest_diff(a, b, n - 1)
    }
}

/// Number of significant bits of a byte.
pub open spec fn bit_len(x: u8) -> int {
    8 - u8_leading_zeros(x)
}

/// The Kadcast distance between two keys: the index of the most significant
/// bit set in their XOR, read as a little-endian number; `None` for equal keys.
pub open spec fn spec_distance(a: Seq<u8>, b: Seq<u8>) -> Option<BucketHeight> {
    match highest_diff(a, b, a.len() as int) {
        None => None,
        Some(i) => Some((8 * i + bit_len(a[i] ^ b[i]) - 1) as BucketHeight),
    }
}

/// Position of the most significant bit set in a byte (1-based), `None` for 0.
pub open spec fn spec_msb(n: u8) -> Option<u8> {
    if n == 0 {
        None
    } else {
        Some(bit_len(n) as u8)
    }
}

proof fn lemma_xor_zero(x: u8, y: u8)
    ensures
        (x ^ y == 0) == (x == y),
{
    assert((x ^ y == 0) == (x == y)) by (bit_vector);
}

proof fn lemma_xor_commutes(x: u8, y: u8)
    ensures
        x ^ y == y ^ x,
{
    assert(x ^ y == y ^ x) by (bit_vector);
}

proof fn lemma_highest_diff_none(a: Seq<u8>, b: Seq<u8>, n: int)
    requires
        0 <= n <= a.len(),
        n <= b.len(),
    ensures
        highest_diff(a, b, n) is None <==> forall|i: int| 0 <= i < n ==> a[i] == b[i],
        highest_diff(a, b, n) matches Some(i) ==> 0 <= i < n && a[i] != b[i],
    decreases n,
{
    if n > 0 {
        lemma_highest_diff_none(a, b, n - 1);
    }
}

proof fn lemma_highest_diff_above(a: Seq<u8>, b: Seq<u8>, n: int, j: int)
    requires
        0 <= n <= a.len(),
        n <= b.len(),
        highest_diff(a, b, n) matches Some(i) && i < j < n,
    ensures
        a[j] == b[j],
    decreases n,
{
    if n - 1 != j {
        lemma_highest_diff_above(a, b, n - 1, j);
    }
}

proof fn lemma_highest_diff_symmetric(a: Seq<u8>, b: Seq<u8>, n: int)
    ensures
        highest_diff(a, b, n) == highest_diff(b, a, n),
    decreases n,
{
    if n > 0 {
        lemma_highest_diff_symmetric(a, b, n - 1);
    }
}

/// Law: the distance between two keys of equal length is `None` exactly when
/// the keys are equal, and otherwise names one of the 8 * len bucket heights.
pub proof fn lemma_distance_none_iff_equal(a: Seq<u8>, b: Seq<u8>)
    requires
        a.len() == b.len(),
        a.len() <= K_ID_LEN_BYTES,
    ensures
        spec_distance(a, b) is None <==> a == b,
        spec_distance(a, b) matches Some(h) ==> h < 8 * a.len(),
{
    lemma_highest_diff_none(a, b, a.len() as int);
    if spec_distance(a, b) is None {
        assert(a =~= b);
    } else {
        let i = highest_diff(a, b, a.len() as int)->0;
        lemma_xor_zero(a[i], b[i]);
    }
}

/// Law: the distance is symmetric.
pub proof fn lemma_distance_symmetric(a: Seq<u8>, b: Seq<u8>)
    requires
        a.len() == b.len(),
    ensures
        spec_distance(a, b) == spec_distance(b, a),
{
    lemma_highest_diff_symmetric(a, b, a.len() as int);
    if let Some(i) = highest_diff(a, b, a.len() as int) {
        lemma_xor_commutes(a[i], b[i]);
    }
}

/// The bytes of `s` read as a little-endian number.
pub open spec fn le_value(s: Seq<u8>) -> nat
    decreases s.len(),
{
    if s.len() == 0 {
        0
    } else {
        le_value(s.drop_last()) + (s.last() as nat) * pow2((8 * (s.len() - 1)) as nat)
    }
}

/// The byte-wise XOR of two keys.
pub open spec fn xor_bytes(a: Seq<u8>, b: Seq<u8>) -> Seq<u8> {
    Seq::new(a.len(), |i: int| a[i] ^ b[i])
}

proof fn lemma_bit_len_bounds(x: u8)
    requires
        x != 0,
    ensures
        1 <= bit_len(x) <= 8,
        pow2((bit_len(x) - 1) as nat) <= x < pow2(bit_len(x) as nat),
{
    lemma2_to64();
    let lz = u8_leading_zeros(x);
    if lz == 0 {
        assert(x >= 128) by (bit_vector)
            requires
                (x >> 7u8) & 1u8 != 0u8,
        ;
    } else if lz == 1 {
        assert(64 <= x < 128) by (bit_vector)
            requires
                (x >> 6u8) & 1u8 != 0u8,
                x >> 7u8 == 0u8,
        ;
    } else if lz == 2 {
        assert(32 <= x < 64) by (bit_vector)
            requires
                (x >> 5u8) & 1u8 != 0u8,
                x >> 6u8 == 0u8,
        ;
    } else if lz == 3 {
        assert(16 <= x < 32) by (bit_vector)
            requires
                (x >> 4u8) & 1u8 != 0u8,
                x >> 5u8 == 0u8,
        ;
    } else if lz == 4 {
        assert(8 <= x < 16) by (bit_vector)
            requires
                (x >> 3u8) & 1u8 != 0u8,
                x >> 4u8 == 0u8,
        ;
    } else if lz == 5 {
        assert(4 <= x < 8) by (bit_vector)
            requires
                (x >> 2u8) & 1u8 != 0u8,
                x >> 3u8 == 0u8,
        ;
    } else if lz == 6 {
        assert(2 <= x < 4) by (bit_vector)
            requires
                (x >> 1u8) & 1u8 != 0u8,
                x >> 2u8 == 0u8,
        ;
    } else {
        assert(x < 2) by (bit_vector)
            requires
                x >> 1u8 == 0u8,
        ;
    }
}

proof fn lemma_le_value_bound(s: Seq<u8>)
    ensures
        le_value(s) < pow2((8 * s.len()) as nat),
    decreases s.len(),
{
    lemma2_to64();
    if s.len() > 0 {
        let n = s.len();
        lemma_le_value_bound(s.drop_last());
        let p = pow2((8 * (n - 1)) as nat);
        lemma_pow2_adds((8 * (n - 1)) as nat, 8);
        assert(((8 * (n - 1)) as nat + 8) as nat == (8 * n) as nat);
        assert(le_value(s.drop_last()) + s.last() * p < pow2((8 * n) as nat)) by (nonlinear_arith)
            requires
                le_value(s.drop_last()) < p,
                s.last() <= 255,
                pow2((8 * n) as nat) == p * 256,
        ;
    }
}

proof fn lemma_le_value_take(s: Seq<u8>, i: int)
    requires
        0 <= i < s.len(),
    ensures
        le_value(s.take(i + 1)) == le_value(s.take(i)) + s[i] * pow2((8 * i) as nat),
{
    assert(s.take(i + 1).drop_last() =~= s.take(i));
}

/// Zero bytes at the top do not change the value.
proof fn lemma_le_value_high_zeros(s: Seq<u8>, n: int)
    requires
        0 <= n <= s.len(),
        forall|j: int| n <= j < s.len() ==> s[j] == 0,
    ensures
        le_value(s) == le_value(s.take(n)),
    decreases s.len() - n,
{
    if n < s.len() {
        lemma_le_value_take(s, n);
        lemma_le_value_high_zeros(s, n + 1);
    } else {
        assert(s.take(n) =~= s);
    }
}

/// Number of significant bits of `x`.
pub open spec fn bit_length(x: nat) -> nat
    decreases x,
{
    if x == 0 {
        0
    } else {
        1 + bit_length(x / 2)
    }
}

/// Number of leading zero bits of `x` written on 128 bits (`u128::leading_zeros`).
pub open spec fn leading_zeros_128(x: nat) -> int {
    128 - bit_length(x)
}

/// A number between `2^k` and `2^(k+1)` has `k + 1` significant bits.
proof fn lemma_bit_length_bracket(x: nat, k: nat)
    requires
        pow2(k) <= x < pow2(k + 1),
    ensures
        bit_length(x) == k + 1,
    decreases k,
{
    vstd::arithmetic::power2::lemma_pow2_unfold(k + 1);
    if k == 0 {
        vstd::arithmetic::power2::lemma2_to64();
        assert(x == 1);
        assert(bit_length(0) == 0);
    } else {
        vstd::arithmetic::power2::lemma_pow2_unfold(k);
        lemma_bit_length_bracket(x / 2, (k - 1) as nat);
    }
}

/// Law: for two 16-byte keys whose XOR, read as a little-endian number, is
/// `x`, the distance is `None` when `x` is zero and otherwise `127` minus the
/// number of leading zeros of `x` on 128 bits.
pub proof fn lemma_distance_leading_zeros(a: Seq<u8>, b: Seq<u8>)
    requires
        a.len() == K_ID_LEN_BYTES,
        b.len() == K_ID_LEN_BYTES,
    ensures
        ({
            let x = le_value(xor_bytes(a, b));
            spec_distance(a, b) == if x == 0 {
                None
            } else {
                Some((127 - leading_zeros_128(x)) as BucketHeight)
            }
        }),
{
    lemma_distance_is_log2(a, b);
    let x = le_value(xor_bytes(a, b));
    if let Some(h) = spec_distance(a, b) {
        lemma_bit_length_bracket(x, h as nat);
        vstd::arithmetic::power2::lemma_pow2_pos(h as nat);
    }
}

/// Law: the distance between two keys of equal length is the position of
/// the most significant bit set in their XOR `d` read as a little-endian
/// number: at distance `h`, `2^h <= d < 2^(h+1)`; keys with no distance
/// have `d == 0`.
pub proof fn lemma_distance_is_log2(a: Seq<u8>, b: Seq<u8>)
    requires
        a.len() == b.len(),
        a.len() <= K_ID_LEN_BYTES,
    ensures
        match spec_distance(a, b) {
            None => le_value(xor_bytes(a, b)) == 0,
            Some(h) => pow2(h as nat) <= le_value(xor_bytes(a, b)) < pow2((h + 1) as nat),
        },
{
    let d = xor_bytes(a, b);
    let n = a.len() as int;
    lemma_highest_diff_none(a, b, n);
    assert forall|j: int| 0 <= j < n implies (#[trigger] d[j] == 0) == (a[j] == b[j]) by {
        lemma_xor_zero(a[j], b[j]);
    }
    match highest_diff(a, b, n) {
        None => {
            lemma_le_value_high_zeros(d, 0);
            assert(d.take(0) =~= Seq::<u8>::empty());
        },
        Some(i) => {
            assert forall|j: int| i < j < n implies d[j] == 0 by {
                lemma_highest_diff_above(a, b, n, j);
            }
            lemma_le_value_high_zeros(d, i + 1);
            lemma_le_value_take(d, i);
            lemma_le_value_bound(d.take(i));
            let x = d[i];
            lemma_bit_len_bounds(x);
            let l = bit_len(x);
            let low = le_value(d.take(i));
            let p = pow2((8 * i) as nat);
            let h = 8 * i + l - 1;
            assert(spec_distance(a, b) == Some(h as BucketHeight));
            lemma_pow2_adds((8 * i) as nat, (l - 1) as nat);
            lemma_pow2_adds((8 * i) as nat, l as nat);
            assert(((8 * i) as nat + (l - 1) as nat) as nat == h as nat);
            assert(((8 * i) as nat + l as nat) as nat == (h + 1) as nat);
            assert(p * pow2((l - 1) as nat) <= low + x * p < p * pow2(l as nat)) by (nonlinear_arith)
                requires
                    low < p,
                    pow2((l - 1) as nat) <= x,
                    x < pow2(l as nat),
                    x >= 0,
                    low >= 0,
            ;
        },
    }
}

/// The little-endian bytes of a `u32`, as an array.
pub fn u32_to_le(x: u32) -> (r: [u8; 4])
    ensures
        r@ == le_u32(x),
{
    let r = [(x % 256) as u8, ((x / 256) % 256) as u8, ((x / 65536) % 256) as u8, (x / 16777216) as u8];
    assert(r@ =~= le_u32(x));
    r
}

/// The identity of a peer: its key together with a proof-of-work nonce.
#[derive(Debug, PartialEq, Eq, PartialOrd, Ord, Clone, Copy)]
pub struct BinaryID {
    bytes: BinaryKey,
    nonce: BinaryNonce,
}

impl BinaryID {
    /// Every identifier carries a nonce that meets the minimum difficulty.
    #[verifier::type_invariant]
    spec fn nonce_is_valid(self) -> bool {
        valid_nonce(self.bytes@, self.nonce@)
    }

    /// The key bytes of this identifier.
    pub closed spec fn key(self) -> Seq<u8> {
        self.bytes@
    }

    /// The nonce bytes of this identifier.
    pub closed spec fn nonce_bytes(self) -> Seq<u8> {
        self.nonce@
    }

    /// Key and nonce have their fixed lengths, and the nonce is valid.
    pub proof fn lemma_shape(self)
        ensures
            self.key().len() == K_ID_LEN_BYTES,
            self.nonce_bytes().len() == K_NONCE_LEN,
    {
    }

    /// Returns the binary key associated with this `BinaryID`.
    pub fn as_binary(&self) -> (r: &BinaryKey)
        ensures
            r@ == self.key(),
    {
        &self.bytes
    }

    /// Returns the binary nonce associated with this `BinaryID`.
    pub fn nonce(&self) -> (r: &BinaryNonce)
        ensures
            r@ == self.nonce_bytes(),
    {
        &self.nonce
    }

    /// Calculates the 0-based Kadcast distance between two `BinaryID`s.
    ///
    /// Returns `None` if the two IDs are identical.
    pub fn calculate_distance(&self, other: &BinaryKey) -> (r: Option<BucketHeight>)
        ensures
            r == spec_distance(self.key(), other@),
            r is Some ==> r->0 < 128,
    {
        let mut i: usize = K_ID_LEN_BYTES;
        while i > 0
            invariant
                i <= K_ID_LEN_BYTES,
                self.bytes@.len() == K_ID_LEN_BYTES,
                other@.len() == K_ID_LEN_BYTES,
                highest_diff(self.bytes@, other@, K_ID_LEN_BYTES as int) == highest_diff(
                    self.bytes@,
                    other@,
                    i as int,
                ),
            decreases i,
        {
            let x = self.bytes[i - 1] ^ other[i - 1];
            proof {
                lemma_xor_zero(self.bytes@[i - 1], other@[i - 1]);
            }
            if x != 0 {
                let m = Self::msb(x).unwrap();
                let h: BucketHeight = m + ((i - 1) as u8) * 8 - 1;
                return Some(h);
            }
            i = i - 1;
        }
        None
    }

    /// Returns the position of the most significant bit set in a byte.
    ///
    /// Returns `None` if no bit is set.
    pub fn msb(n: u8) -> (r: Option<u8>)
        ensures
            r == spec_msb(n),
            r is None <==> n == 0,
            r matches Some(b) ==> 1 <= b <= 8 && pow2((b - 1) as nat) <= n < pow2(b as nat),
    {
        proof {
            if n != 0 {
                lemma_bit_len_bounds(n);
            }
        }
        let z = n.leading_zeros();
        if z == 8 {
            None
        } else {
            Some((8 - z) as u8)
        }
    }

    /// Creates a new `BinaryID` by combining a `BinaryKey` and a `BinaryNonce`.
    ///
    /// Fails with `InvalidNonce` when the nonce does not meet the difficulty.
    pub fn from_nonce(id: BinaryKey, nonce: BinaryNonce) -> (r: Result<Self, EncodingError>)
        ensures
            valid_nonce(id@, nonce@) ==> (r matches Ok(b) && b.key() == id@ && b.nonce_bytes()
                == nonce@),
            !valid_nonce(id@, nonce@) ==> r == Err::<Self, EncodingError>(
                EncodingError::InvalidNonce,
            ),
    {
        if Self::check_nonce(&id, &nonce) {
            Ok(BinaryID { bytes: id, nonce })
        } else {
            Err(EncodingError::InvalidNonce)
        }
    }

    /// Whether `nonce` meets `difficulty` for `id`.
    fn digest_of(id: &BinaryKey, nonce: &[u8]) -> (r: [u8; 32])
        ensures
            r@ == spec_blake2s256(id@ + nonce@),
    {
        let mut data: Vec<u8> = Vec::new();
        let mut i: usize = 0;
        while i < K_ID_LEN_BYTES
            invariant
                i <= K_ID_LEN_BYTES,
                id@.len() == K_ID_LEN_BYTES,
                data@ == id@.take(i as int),
            decreases K_ID_LEN_BYTES - i,
        {
            data.push(id[i]);
            i = i + 1;
            assert(data@ =~= id@.take(i as int));
        }
        let mut j: usize = 0;
        while j < nonce.len()
            invariant
                j <= nonce@.len(),
                id@.len() == K_ID_LEN_BYTES,
                data@ == id@ + nonce@.take(j as int),
            decreases nonce@.len() - j,
        {
            data.push(nonce[j]);
            j = j + 1;
            assert(data@ =~= id@ + nonce@.take(j as int));
        }
        assert(id@.take(K_ID_LEN_BYTES as int) =~= id@);
        assert(nonce@.take(nonce@.len() as int) =~= nonce@);
        blake2s256(data.as_slice())
    }

    fn check_nonce(id: &BinaryKey, nonce: &BinaryNonce) -> (r: bool)
        ensures
            r == valid_nonce(id@, nonce@),
    {
        let digest = Self::digest_of(id, nonce.as_slice());
        Self::verify_difficulty(digest.as_slice(), K_DIFF_MIN_BIT)
    }

    /// Generates a new `BinaryID` using the given `BinaryKey`.
    ///
    /// The nonce is the least `u32`, in little-endian bytes, whose digest
    /// meets the produced difficulty; `None` if no `u32` does.
    pub fn generate(id: BinaryKey) -> (r: Option<Self>)
        ensures
            match r {
                Some(b) => b.key() == id@ && exists|n: u32|
                    #![trigger le_u32(n)]
                    {
                        &&& b.nonce_bytes() == le_u32(n)
                        &&& produced_nonce_ok(id@, n)
                        &&& forall|m: u32| m < n ==> !#[trigger] produced_nonce_ok(id@, m)
                    },
                None => forall|m: u32| !#[trigger] produced_nonce_ok(id@, m),
            },
    {
        let mut n: u64 = 0;
        while n <= 0xffff_ffff
            invariant
                n <= 0x1_0000_0000,
                forall|m: u32| m < n ==> !#[trigger] produced_nonce_ok(id@, m),
            decreases 0x1_0000_0000 - n,
        {
            let nonce_bytes = u32_to_le(n as u32);
            let digest = Self::digest_of(&id, nonce_bytes.as_slice());
            if Self::verify_difficulty(digest.as_slice(), K_DIFF_PRODUCED_BIT) {
                assert(produced_nonce_ok(id@, n as u32));
                let b = BinaryID { bytes: id, nonce: nonce_bytes };
                return Some(b);
            }
            n = n + 1;
        }
        None
    }

    /// Verifies that the nonce of the `BinaryID` meets the minimum difficulty
    /// requirements.
    pub fn verify_nonce(&self) -> (r: bool)
        ensures
            r == valid_nonce(self.key(), self.nonce_bytes()),
            r,
    {
        proof {
            use_type_invariant(self);
        }
        Self::check_nonce(&self.bytes, &self.nonce)
    }

    /// Verifies the difficulty of a binary value: read in order, the bytes show
    /// at least `difficulty` zero bits.
    pub fn verify_difficulty(bytes: &[u8], difficulty: usize) -> (r: bool)
        ensures
            r == meets_difficulty(bytes@, difficulty as nat),
    {
        let mut i: usize = 0;
        let mut d: usize = difficulty;
        assert(bytes@.skip(0) =~= bytes@);
        while i < bytes.len()
            invariant
                i <= bytes@.len(),
                meets_difficulty(bytes@, difficulty as nat) == meets_difficulty(
                    bytes@.skip(i as int),
                    d as nat,
                ),
            decreases bytes@.len() - i,
        {
            let b = bytes[i];
            assert(bytes@.skip(i as int)[0] == b);
            assert(bytes@.skip(i as int).drop_first() =~= bytes@.skip(i + 1));
            if d <= 8 {
                return b.trailing_zeros() as usize >= d;
            }
            if b != 0 {
                return false;
            }
            d = d - 8;
            i = i + 1;
        }
        false
    }
}

} // verus!
