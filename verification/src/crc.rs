//! The byte-range checksum consumed by the tag file format.

use vstd::prelude::*;

verus! {

/// The CRC-32 checksum of a byte sequence. The algorithm itself is outside
/// this crate; the contracts only need that the checksum is a function of the
/// bytes alone.
pub uninterp spec fn crc32_of(data: Seq<u8>) -> u32;

/// Relies on crc32fast::hash: the CRC-32 checksum depends on the bytes alone.
#[verifier::external_body]
pub(crate) fn crc32(data: &[u8]) -> (r: u32)
    ensures
        r == crc32_of(data@),
{
    crc32fast::hash(data)
}

} // verus!
