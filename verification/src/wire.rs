//! Little-endian integers as they stand in a byte stream.

use byteorder::{ByteOrder, LittleEndian};
use vstd::prelude::*;

verus! {

/// The two bytes of `x`, least significant first.
pub open spec fn le_bytes_u16(x: u16) -> Seq<u8> {
    seq![(x % 256) as u8, (x / 256) as u8]
}

/// The four bytes of `x`, least significant first.
pub open spec fn le_bytes_u32(x: u32) -> Seq<u8> {
    seq![
        (x % 256) as u8,
        ((x / 256) % 256) as u8,
        ((x / 65536) % 256) as u8,
        (x / 16777216) as u8,
    ]
}

/// The number that the four bytes of `bytes` starting at `at` spell,
/// least significant byte first.
pub open spec fn le_value_u32(bytes: Seq<u8>, at: int) -> int
    recommends
        0 <= at,
        at + 4 <= bytes.len(),
{
    bytes[at] + 256 * bytes[at + 1] + 65536 * bytes[at + 2] + 16777216 * bytes[at + 3]
}

/// The number that the two bytes of `bytes` starting at `at` spell, least
/// significant byte first.
pub open spec fn le_value_u16(bytes: Seq<u8>, at: int) -> int
    recommends
        0 <= at,
        at + 2 <= bytes.len(),
{
    bytes[at] + 256 * bytes[at + 1]
}

/// `part` stands in `bytes` at offset `at`.
pub open spec fn stands_at(bytes: Seq<u8>, at: int, part: Seq<u8>) -> bool {
    &&& 0 <= at
    &&& at + part.len() <= bytes.len()
    &&& bytes.subrange(at, at + part.len()) == part
}

/// Where two parts stand one after the other, each stands at its own
/// offset.
pub proof fn lemma_stands_split(bytes: Seq<u8>, at: int, first: Seq<u8>, second: Seq<u8>)
    requires
        stands_at(bytes, at, first + second),
    ensures
        stands_at(bytes, at, first),
        stands_at(bytes, at + first.len(), second),
{
    let whole = bytes.subrange(at, at + (first + second).len());
    assert forall|i: int| 0 <= i < first.len() implies bytes[at + i] == first[i] by {
        assert(whole[i] == (first + second)[i]);
    }
    assert forall|i: int| 0 <= i < second.len() implies bytes[at + first.len() + i]
        == second[i] by {
        assert(whole[first.len() + i] == (first + second)[first.len() + i]);
    }
    assert(bytes.subrange(at, at + first.len()) =~= first);
    assert(bytes.subrange(at + first.len(), at + first.len() + second.len()) =~= second);
}

/// A part stands where each of its bytes stands.
pub proof fn lemma_stands_bytes(bytes: Seq<u8>, at: int, part: Seq<u8>)
    requires
        stands_at(bytes, at, part),
    ensures
        forall|i: int| 0 <= i < part.len() ==> bytes[at + i] == #[trigger] part[i],
{
    let whole = bytes.subrange(at, at + part.len());
    assert forall|i: int| 0 <= i < part.len() implies bytes[at + i] == #[trigger] part[i] by {
        assert(whole[i] == part[i]);
    }
}

/// Reading back the little-endian bytes of a `u32` gives the number,
/// wherever in a stream the four bytes stand.
pub proof fn lemma_le_u32_round_trip(bytes: Seq<u8>, at: int, x: u32)
    requires
        stands_at(bytes, at, le_bytes_u32(x)),
    ensures
        le_value_u32(bytes, at) == x,
{
    lemma_stands_bytes(bytes, at, le_bytes_u32(x));
    assert(bytes[at] == le_bytes_u32(x)[0]);
    assert(bytes[at + 1] == le_bytes_u32(x)[1]);
    assert(bytes[at + 2] == le_bytes_u32(x)[2]);
    assert(bytes[at + 3] == le_bytes_u32(x)[3]);
}

/// Different numbers have different little-endian bytes.
pub proof fn lemma_le_bytes_u32_injective(x: u32, y: u32)
    ensures
        le_bytes_u32(x) == le_bytes_u32(y) <==> x == y,
{
    if le_bytes_u32(x) == le_bytes_u32(y) {
        assert(stands_at(le_bytes_u32(x), 0, le_bytes_u32(x))) by {
            assert(le_bytes_u32(x).subrange(0, 4) == le_bytes_u32(x));
        }
        lemma_le_u32_round_trip(le_bytes_u32(x), 0, x);
        lemma_le_u32_round_trip(le_bytes_u32(x), 0, y);
    }
}

/// Reading back the little-endian bytes of a `u16` gives the number,
/// wherever in a stream the two bytes stand.
pub proof fn lemma_le_u16_round_trip(bytes: Seq<u8>, at: int, x: u16)
    requires
        stands_at(bytes, at, le_bytes_u16(x)),
    ensures
        le_value_u16(bytes, at) == x,
{
    lemma_stands_bytes(bytes, at, le_bytes_u16(x));
    assert(bytes[at] == le_bytes_u16(x)[0]);
    assert(bytes[at + 1] == le_bytes_u16(x)[1]);
}

/// Little-endian encoding of a `u32`, by `byteorder::LittleEndian::write_u32`
/// on a four-byte buffer. The claim is that the buffer then holds the bytes
/// of the number from the least significant to the most significant.
#[verifier::external_body]
pub(crate) fn u32_le(x: u32) -> (out: [u8; 4])
    ensures
        out@ == le_bytes_u32(x),
{
    let mut out = [0u8; 4];
    LittleEndian::write_u32(&mut out, x);
    out
}

/// Little-endian encoding of a `u16`, by `byteorder::LittleEndian::write_u16`
/// on a two-byte buffer. The claim is that the buffer then holds the low
/// byte of the number followed by its high byte.
#[verifier::external_body]
pub(crate) fn u16_le(x: u16) -> (out: [u8; 2])
    ensures
        out@ == le_bytes_u16(x),
{
    let mut out = [0u8; 2];
    LittleEndian::write_u16(&mut out, x);
    out
}

/// Appends `src` to `buf`.
pub fn append(buf: &mut Vec<u8>, src: &[u8])
    ensures
        final(buf)@ == old(buf)@ + src@,
{
    let mut i: usize = 0;
    while i < src.len()
        invariant
            i <= src.len(),
            buf@ == old(buf)@ + src@.subrange(0, i as int),
        decreases src.len() - i,
    {
        buf.push(src[i]);
        i += 1;
    }
    assert(src@.subrange(0, src@.len() as int) == src@);
}

/// Appends the little-endian bytes of `x` to `buf`.
pub fn put_u32(buf: &mut Vec<u8>, x: u32)
    ensures
        final(buf)@ == old(buf)@ + le_bytes_u32(x),
{
    let field = u32_le(x);
    append(buf, field.as_slice());
}

/// Appends the little-endian bytes of `x` to `buf`.
pub fn put_u16(buf: &mut Vec<u8>, x: u16)
    ensures
        final(buf)@ == old(buf)@ + le_bytes_u16(x),
{
    let field = u16_le(x);
    append(buf, field.as_slice());
}

/// Reads the little-endian `u32` that stands at offset `at` of `bytes`.
pub fn get_u32(bytes: &[u8], at: usize) -> (x: u32)
    requires
        at + 4 <= bytes@.len(),
    ensures
        x == le_value_u32(bytes@, at as int),
{
    let b0 = bytes[at] as u32;
    let b1 = bytes[at + 1] as u32;
    let b2 = bytes[at + 2] as u32;
    let b3 = bytes[at + 3] as u32;
    b0 + 256 * b1 + 65536 * b2 + 16777216 * b3
}

} // verus!
