//! Binary wire encoding of the Kadcast messages.
//!
//! Every wire type has a mathematical model (its view), a spec function
//! `wire` giving the bytes written for a model, and a spec function `parse`
//! giving what reading a byte string yields: the model read and the number of
//! bytes consumed, or the error raised.
use vstd::prelude::*;

pub mod error;
pub mod header;
pub mod message;
pub mod payload;
pub mod roundtrip;

pub use error::EncodingError;

verus! {

/// Encoding into, and decoding from, the Kadcast wire format.
pub trait Marshallable: Sized + View {
    /// The bytes written for a value with the given model.
    spec fn wire(v: Self::V) -> Seq<u8>;

    /// What reading from the start of `data` yields.
    spec fn parse(data: Seq<u8>) -> Result<(Self::V, nat), EncodingError>;

    /// Appends the encoding of `self` to `writer`.
    fn marshal_binary(&self, writer: &mut Vec<u8>) -> (r: Result<(), EncodingError>)
        ensures
            r is Ok,
            final(writer)@ == old(writer)@ + Self::wire(self@),
    ;

    /// Reads a value from the start of `reader`; returns it with the number of
    /// bytes consumed.
    fn unmarshal_binary(reader: &[u8]) -> (r: Result<(Self, usize), EncodingError>)
        ensures
            match r {
                Ok((v, n)) => Self::parse(reader@) == Ok::<(Self::V, nat), EncodingError>(
                    (v@, n as nat),
                ),
                Err(e) => Self::parse(reader@) == Err::<(Self::V, nat), EncodingError>(e),
            },
    ;
}

/// The little-endian bytes of a `u16`.
pub open spec fn le_u16(x: u16) -> Seq<u8> {
    seq![(x % 256) as u8, (x / 256) as u8]
}

/// The `u16` read from two little-endian bytes.
pub open spec fn from_le_u16(s: Seq<u8>) -> u16 {
    (s[0] + 256 * s[1]) as u16
}

/// The `u32` read from four little-endian bytes.
pub open spec fn from_le_u32(s: Seq<u8>) -> u32 {
    (s[0] + 256 * s[1] + 65536 * s[2] + 16777216 * s[3]) as u32
}

/// Writing a `u16` and reading it back gives it back, and reading two bytes
/// and writing the result gives the bytes back.
pub proof fn lemma_le_u16(x: u16, s: Seq<u8>)
    ensures
        le_u16(x).len() == 2,
        from_le_u16(le_u16(x)) == x,
        s.len() == 2 ==> le_u16(from_le_u16(s)) == s,
{
    if s.len() == 2 {
        assert(le_u16(from_le_u16(s)) =~= s);
    }
}

proof fn lemma_u32_split(x: u32)
    ensures
        x == (x % 256) + 256 * ((x / 256) % 256) + 65536 * ((x / 65536) % 256) + 16777216 * (x
            / 16777216),
        x / 16777216 < 256,
{
    assert(x == (x % 256) + 256 * ((x / 256) % 256) + 65536 * ((x / 65536) % 256) + 16777216 * (
    x / 16777216)) by (bit_vector);
    assert(x / 16777216 < 256) by (bit_vector);
}

proof fn lemma_u32_join(a: u8, b: u8, c: u8, d: u8)
    ensures
        ({
            let y = a + 256 * b + 65536 * c + 16777216 * d;
            &&& y < 0x1_0000_0000
            &&& y % 256 == a
            &&& (y / 256) % 256 == b
            &&& (y / 65536) % 256 == c
            &&& y / 16777216 == d
        }),
{
    let a32 = a as u32;
    let b32 = b as u32;
    let c32 = c as u32;
    let d32 = d as u32;
    assert(a32 < 256 && b32 < 256 && c32 < 256 && d32 < 256 ==> ({
        let y = (a32 + 256 * b32 + 65536 * c32 + 16777216 * d32) as u32;
        &&& y % 256 == a32
        &&& (y / 256) % 256 == b32
        &&& (y / 65536) % 256 == c32
        &&& y / 16777216 == d32
    })) by (bit_vector);
    assert(a + 256 * b + 65536 * c + 16777216 * d < 0x1_0000_0000);
}

/// The same for `u32`.
pub proof fn lemma_le_u32(x: u32, s: Seq<u8>)
    ensures
        crate::kbucket::key::le_u32(x).len() == 4,
        from_le_u32(crate::kbucket::key::le_u32(x)) == x,
        s.len() == 4 ==> crate::kbucket::key::le_u32(from_le_u32(s)) == s,
{
    lemma_u32_split(x);
    if s.len() == 4 {
        lemma_u32_join(s[0], s[1], s[2], s[3]);
        assert(crate::kbucket::key::le_u32(from_le_u32(s)) =~= s);
    }
}

/// Appends the little-endian bytes of `x`.
pub fn push_u16(writer: &mut Vec<u8>, x: u16)
    ensures
        final(writer)@ == old(writer)@ + le_u16(x),
{
    writer.push((x % 256) as u8);
    writer.push((x / 256) as u8);
    assert(final(writer)@ =~= old(writer)@ + le_u16(x));
}

/// Appends the little-endian bytes of `x`.
pub fn push_u32(writer: &mut Vec<u8>, x: u32)
    ensures
        final(writer)@ == old(writer)@ + crate::kbucket::key::le_u32(x),
{
    writer.push((x % 256) as u8);
    writer.push(((x / 256) % 256) as u8);
    writer.push(((x / 65536) % 256) as u8);
    writer.push((x / 16777216) as u8);
    assert(final(writer)@ =~= old(writer)@ + crate::kbucket::key::le_u32(x));
}

/// Appends all bytes of `bytes`.
pub fn push_bytes(writer: &mut Vec<u8>, bytes: &[u8])
    ensures
        final(writer)@ == old(writer)@ + bytes@,
{
    let mut i: usize = 0;
    while i < bytes.len()
        invariant
            i <= bytes@.len(),
            writer@ == old(writer)@ + bytes@.take(i as int),
        decreases bytes@.len() - i,
    {
        writer.push(bytes[i]);
        i = i + 1;
        assert(writer@ =~= old(writer)@ + bytes@.take(i as int));
    }
    assert(bytes@.take(bytes@.len() as int) =~= bytes@);
}

/// Reads a little-endian `u16` at `pos`.
pub fn read_u16(data: &[u8], pos: usize) -> (r: u16)
    requires
        pos + 2 <= data@.len(),
    ensures
        r == from_le_u16(data@.subrange(pos as int, pos + 2)),
{
    (data[pos] as u16) + (data[pos + 1] as u16) * 256
}

/// Reads a little-endian `u32` at `pos`.
pub fn read_u32(data: &[u8], pos: usize) -> (r: u32)
    requires
        pos + 4 <= data@.len(),
    ensures
        r == from_le_u32(data@.subrange(pos as int, pos + 4)),
{
    (data[pos] as u32) + (data[pos + 1] as u32) * 256 + (data[pos + 2] as u32) * 65536 + (
    data[pos + 3] as u32) * 16777216
}

/// Copies 2 bytes at `pos` into an array.
pub fn read_array_2(data: &[u8], pos: usize) -> (r: [u8; 2])
    requires
        pos + 2 <= data@.len(),
    ensures
        r@ == data@.subrange(pos as int, pos + 2),
{
    let mut r = [0u8; 2];
    let mut i: usize = 0;
    while i < 2
        invariant
            i <= 2,
            pos + 2 <= data.len(),
            r@.len() == 2,
            forall|j: int| 0 <= j < i ==> r@[j] == data@[pos + j],
        decreases 2 - i,
    {
        r[i] = data[pos + i];
        i = i + 1;
    }
    assert(r@ =~= data@.subrange(pos as int, pos + 2));
    r
}

/// Copies 4 bytes at `pos` into an array.
pub fn read_array_4(data: &[u8], pos: usize) -> (r: [u8; 4])
    requires
        pos + 4 <= data@.len(),
    ensures
        r@ == data@.subrange(pos as int, pos + 4),
{
    let mut r = [0u8; 4];
    let mut i: usize = 0;
    while i < 4
        invariant
            i <= 4,
            pos + 4 <= data.len(),
            r@.len() == 4,
            forall|j: int| 0 <= j < i ==> r@[j] == data@[pos + j],
        decreases 4 - i,
    {
        r[i] = data[pos + i];
        i = i + 1;
    }
    assert(r@ =~= data@.subrange(pos as int, pos + 4));
    r
}

/// Copies 12 bytes at `pos` into an array.
pub fn read_array_12(data: &[u8], pos: usize) -> (r: [u8; 12])
    requires
        pos + 12 <= data@.len(),
    ensures
        r@ == data@.subrange(pos as int, pos + 12),
{
    let mut r = [0u8; 12];
    let mut i: usize = 0;
    while i < 12
        invariant
            i <= 12,
            pos + 12 <= data.len(),
            r@.len() == 12,
            forall|j: int| 0 <= j < i ==> r@[j] == data@[pos + j],
        decreases 12 - i,
    {
        r[i] = data[pos + i];
        i = i + 1;
    }
    assert(r@ =~= data@.subrange(pos as int, pos + 12));
    r
}

/// Copies 16 bytes at `pos` into an array.
pub fn read_array_16(data: &[u8], pos: usize) -> (r: [u8; 16])
    requires
        pos + 16 <= data@.len(),
    ensures
        r@ == data@.subrange(pos as int, pos + 16),
{
    let mut r = [0u8; 16];
    let mut i: usize = 0;
    while i < 16
        invariant
            i <= 16,
            pos + 16 <= data.len(),
            r@.len() == 16,
            forall|j: int| 0 <= j < i ==> r@[j] == data@[pos + j],
        decreases 16 - i,
    {
        r[i] = data[pos + i];
        i = i + 1;
    }
    assert(r@ =~= data@.subrange(pos as int, pos + 16));
    r
}

/// Copies 32 bytes at `pos` into an array.
pub fn read_array_32(data: &[u8], pos: usize) -> (r: [u8; 32])
    requires
        pos + 32 <= data@.len(),
    ensures
        r@ == data@.subrange(pos as int, pos + 32),
{
    let mut r = [0u8; 32];
    let mut i: usize = 0;
    while i < 32
        invariant
            i <= 32,
            pos + 32 <= data.len(),
            r@.len() == 32,
            forall|j: int| 0 <= j < i ==> r@[j] == data@[pos + j],
        decreases 32 - i,
    {
        r[i] = data[pos + i];
        i = i + 1;
    }
    assert(r@ =~= data@.subrange(pos as int, pos + 32));
    r
}

/// Copies 44 bytes at `pos` into an array.
pub fn read_array_44(data: &[u8], pos: usize) -> (r: [u8; 44])
    requires
        pos + 44 <= data@.len(),
    ensures
        r@ == data@.subrange(pos as int, pos + 44),
{
    let mut r = [0u8; 44];
    let mut i: usize = 0;
    while i < 44
        invariant
            i <= 44,
            pos + 44 <= data.len(),
            r@.len() == 44,
            forall|j: int| 0 <= j < i ==> r@[j] == data@[pos + j],
        decreases 44 - i,
    {
        r[i] = data[pos + i];
        i = i + 1;
    }
    assert(r@ =~= data@.subrange(pos as int, pos + 44));
    r
}

/// Whether two byte strings are equal.
pub fn bytes_equal(a: &[u8], b: &[u8]) -> (r: bool)
    ensures
        r == (a@ == b@),
{
    if a.len() != b.len() {
        return false;
    }
    let mut i: usize = 0;
    while i < a.len()
        invariant
            i <= a@.len(),
            a@.len() == b@.len(),
            forall|j: int| 0 <= j < i ==> a@[j] == b@[j],
        decreases a@.len() - i,
    {
        if a[i] != b[i] {
            return false;
        }
        i = i + 1;
    }
    assert(a@ =~= b@);
    true
}

} // verus!
