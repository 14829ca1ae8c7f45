//! The checksum that closes a container.
//!
//! The last four bytes of a container hold the bitwise complement of the
//! CRC-32 of all bytes before them, least significant byte first.

use crate::wire::{le_bytes_u32, lemma_le_bytes_u32_injective, put_u32};
use vstd::prelude::*;

verus! {

/// The CRC-32 (IEEE) of a byte sequence, as `crc32fast::hash` computes it.
pub uninterp spec fn crc32(data: Seq<u8>) -> u32;

/// CRC-32 of `data`, by `crc32fast::hash`. The claim is only that the result
/// is a function of the bytes: the same bytes always give the same checksum.
#[verifier::external_body]
pub(crate) fn crc32_of(data: &[u8]) -> (sum: u32)
    ensures
        sum == crc32(data@),
{
    crc32fast::hash(data)
}

/// The bytes of the trailing field of a container whose other bytes have
/// the CRC-32 `sum`.
pub open spec fn trailer_bytes(sum: u32) -> Seq<u8> {
    le_bytes_u32(!sum)
}

/// Appends to `out` the trailing field for bytes whose CRC-32 is `sum`.
pub fn put_trailer(out: &mut Vec<u8>, sum: u32)
    ensures
        final(out)@ == old(out)@ + trailer_bytes(sum),
{
    put_u32(out, !sum);
}

/// The value that the trailing field of a container must hold when the
/// bytes before it are `framed`.
pub fn trailer(framed: &[u8]) -> (value: u32)
    ensures
        value == !crc32(framed@),
{
    !crc32_of(framed)
}

/// Two checksums call for the same trailing field exactly when they are
/// equal: neither complementing a checksum nor writing it as four bytes
/// loses anything of it. So a change to the bytes before the trailing field
/// changes what that field must hold whenever it changes their CRC-32.
pub proof fn lemma_trailer_follows_checksum(a: u32, b: u32)
    ensures
        trailer_bytes(a) == trailer_bytes(b) <==> a == b,
{
    assert((!a == !b) <==> (a == b)) by (bit_vector);
    lemma_le_bytes_u32_injective(!a, !b);
}

} // verus!
