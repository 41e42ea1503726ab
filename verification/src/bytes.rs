//! Big-endian integer access into byte buffers.
//!
//! Tag files store their multi-byte fields in big-endian order. The exec
//! functions here delegate to the `byteorder` crate; the spec functions state
//! exactly which bytes are read or written.

use vstd::prelude::*;

verus! {

/// The big-endian `u32` held in the four bytes of `s` starting at `i`.
pub open spec fn be_u32_at(s: Seq<u8>, i: int) -> u32 {
    ((s[i] as int) * 0x1000000 + (s[i + 1] as int) * 0x10000 + (s[i + 2] as int) * 0x100 + (s[i
        + 3] as int)) as u32
}

/// The big-endian `u16` held in the two bytes of `s` starting at `i`.
pub open spec fn be_u16_at(s: Seq<u8>, i: int) -> u16 {
    ((s[i] as int) * 0x100 + (s[i + 1] as int)) as u16
}

/// The four bytes that store `v` in big-endian order.
pub open spec fn be_u32_bytes(v: u32) -> Seq<u8> {
    seq![
        ((v as int) / 0x1000000) as u8,
        (((v as int) / 0x10000) % 0x100) as u8,
        (((v as int) / 0x100) % 0x100) as u8,
        ((v as int) % 0x100) as u8,
    ]
}

/// The two bytes that store `v` in big-endian order.
pub open spec fn be_u16_bytes(v: u16) -> Seq<u8> {
    seq![((v as int) / 0x100) as u8, ((v as int) % 0x100) as u8]
}

/// Relies on byteorder's `BigEndian::read_u32`: returns the big-endian `u32`
/// held in the four bytes starting at `at`.
#[verifier::external_body]
pub(crate) fn read_u32_be(data: &[u8], at: usize) -> (r: u32)
    requires
        at + 4 <= data@.len(),
    ensures
        r == be_u32_at(data@, at as int),
{
    <byteorder::BigEndian as byteorder::ByteOrder>::read_u32(&data[at..at + 4])
}

/// Relies on byteorder's `BigEndian::read_u16`: returns the big-endian `u16`
/// held in the two bytes starting at `at`.
#[verifier::external_body]
pub(crate) fn read_u16_be(data: &[u8], at: usize) -> (r: u16)
    requires
        at + 2 <= data@.len(),
    ensures
        r == be_u16_at(data@, at as int),
{
    <byteorder::BigEndian as byteorder::ByteOrder>::read_u16(&data[at..at + 2])
}

/// Relies on byteorder's `BigEndian::write_u32`: stores `v` as four
/// big-endian bytes starting at `at`, leaving every other byte unchanged.
#[verifier::external_body]
pub(crate) fn write_u32_be(data: &mut Vec<u8>, at: usize, v: u32)
    requires
        at + 4 <= old(data)@.len(),
    ensures
        final(data)@.len() == old(data)@.len(),
        forall|j: int|
            0 <= j < old(data)@.len() ==> final(data)@[j] == (if at <= j < at + 4 {
                be_u32_bytes(v)[j - at]
            } else {
                old(data)@[j]
            }),
{
    <byteorder::BigEndian as byteorder::ByteOrder>::write_u32(&mut data[at..at + 4], v);
}

/// Relies on byteorder's `BigEndian::write_u16`: stores `v` as two big-endian
/// bytes starting at `at`, leaving every other byte unchanged.
#[verifier::external_body]
pub(crate) fn write_u16_be(data: &mut Vec<u8>, at: usize, v: u16)
    requires
        at + 2 <= old(data)@.len(),
    ensures
        final(data)@.len() == old(data)@.len(),
        forall|j: int|
            0 <= j < old(data)@.len() ==> final(data)@[j] == (if at <= j < at + 2 {
                be_u16_bytes(v)[j - at]
            } else {
                old(data)@[j]
            }),
{
    <byteorder::BigEndian as byteorder::ByteOrder>::write_u16(&mut data[at..at + 2], v);
}

/// Reading four bytes that hold the big-endian encoding of `v` yields `v`,
/// at any position.
pub proof fn lemma_be_u32_read_back(s: Seq<u8>, i: int, v: u32)
    requires
        0 <= i,
        i + 4 <= s.len(),
        forall|k: int| 0 <= k < 4 ==> s[i + k] == be_u32_bytes(v)[k],
    ensures
        be_u32_at(s, i) == v,
{
    assert(s[i + 0] == be_u32_bytes(v)[0]);
    assert(s[i + 1] == be_u32_bytes(v)[1]);
    assert(s[i + 2] == be_u32_bytes(v)[2]);
    assert(s[i + 3] == be_u32_bytes(v)[3]);
}

/// Re-encoding the value read from four bytes yields those bytes back.
pub proof fn lemma_be_u32_bytes_of_at(s: Seq<u8>, i: int)
    requires
        0 <= i,
        i + 4 <= s.len(),
    ensures
        forall|k: int| 0 <= k < 4 ==> be_u32_bytes(be_u32_at(s, i))[k] == s[i + k],
{
    assert(be_u32_bytes(be_u32_at(s, i))[0] == s[i + 0]);
    assert(be_u32_bytes(be_u32_at(s, i))[1] == s[i + 1]);
    assert(be_u32_bytes(be_u32_at(s, i))[2] == s[i + 2]);
    assert(be_u32_bytes(be_u32_at(s, i))[3] == s[i + 3]);
}

/// Re-encoding the value read from two bytes yields those bytes back.
pub proof fn lemma_be_u16_bytes_of_at(s: Seq<u8>, i: int)
    requires
        0 <= i,
        i + 2 <= s.len(),
    ensures
        forall|k: int| 0 <= k < 2 ==> be_u16_bytes(be_u16_at(s, i))[k] == s[i + k],
{
    assert(be_u16_bytes(be_u16_at(s, i))[0] == s[i + 0]);
    assert(be_u16_bytes(be_u16_at(s, i))[1] == s[i + 1]);
}

/// Reading two bytes that hold the big-endian encoding of `v` yields `v`,
/// at any position.
pub proof fn lemma_be_u16_read_back(s: Seq<u8>, i: int, v: u16)
    requires
        0 <= i,
        i + 2 <= s.len(),
        forall|k: int| 0 <= k < 2 ==> s[i + k] == be_u16_bytes(v)[k],
    ensures
        be_u16_at(s, i) == v,
{
    assert(s[i + 0] == be_u16_bytes(v)[0]);
    assert(s[i + 1] == be_u16_bytes(v)[1]);
}

} // verus!
