//! The tag file container format.
//!
//! A serialized tag is a fixed 64-byte header followed by the payload bytes
//! of a schema-defined struct. The header identifies the container (magic
//! constant, sentinel, declared header size), names the asset type (group
//! tag and schema version) and carries a CRC-32 checksum over every byte
//! after the header. The checksum may be stored as a sentinel value that
//! disables verification.

use vstd::prelude::*;
use crate::bytes::{
    be_u16_at, be_u16_bytes, be_u32_at, be_u32_bytes, lemma_be_u16_read_back,
    lemma_be_u32_read_back, read_u16_be, read_u32_be, write_u16_be, write_u32_be,
};
use crate::crc::{crc32, crc32_of};
use crate::error::{Error, RinghopperResult};
use crate::primitive::TagGroup;

verus! {

broadcast use vstd::array::group_array_axioms;

/// If the stored checksum equals this value, checksum verification is
/// disabled for the file.
pub const IGNORED_CRC32: u32 = 0xFFFFFFFF;

/// The magic constant closing every tag file header.
pub const BLAM_FOURCC: u32 = 0x626C616D;

/// The sentinel value every header stores just before the magic constant.
pub const HEADER_SENTINEL: u16 = 0x00FF;

/// The fixed size of a tag file header in bytes.
pub const TAG_FILE_HEADER_LEN: usize = 0x40;

/// Determine how strict parsing should be. In all cases out-of-bounds data
/// cannot be parsed; the relaxed mode only tolerates checksum mismatches.
#[derive(Copy, Clone, Debug, PartialEq, Eq, Structural)]
pub enum ParseStrictness {
    /// Require the stored checksum to match; the default choice.
    Strict,
    /// Accept files whose stored checksum does not match.
    Relaxed,
}

impl Default for ParseStrictness {
    /// The default mode is strict.
    fn default() -> (r: Self)
        ensures
            r is Strict,
    {
        ParseStrictness::Strict
    }
}

/// The fixed-layout record at the start of every tag file.
#[derive(Clone, Debug)]
pub struct TagFileHeader {
    /// An identifier value; zero when unset, which is the common case.
    pub id: u32,
    /// A 32-byte descriptive field; all zero when unset, the common case.
    pub string: [u8; 32],
    /// The group of the tag held by the file.
    pub group: TagGroup,
    /// CRC-32 of all bytes following the header; [`IGNORED_CRC32`] disables
    /// verification.
    pub crc32: u32,
    /// The declared header size; valid only when equal to
    /// [`TAG_FILE_HEADER_LEN`].
    pub header_size: u32,
    /// The schema version of the tag struct.
    pub version: u16,
    /// The sentinel; valid only when equal to [`HEADER_SENTINEL`].
    pub u16_255: u16,
    /// The magic constant; valid only when equal to [`BLAM_FOURCC`].
    pub blam_fourcc: u32,
}

/// The byte at offset `j` of the encoding of header `h`.
pub open spec fn spec_header_byte(h: TagFileHeader, j: int) -> u8 {
    if j < 0x04 {
        be_u32_bytes(h.id)[j]
    } else if j < 0x24 {
        h.string@[j - 0x04]
    } else if j < 0x28 {
        be_u32_bytes(h.group.spec_fourcc())[j - 0x24]
    } else if j < 0x2C {
        be_u32_bytes(h.crc32)[j - 0x28]
    } else if j < 0x30 {
        be_u32_bytes(h.header_size)[j - 0x2C]
    } else if j < 0x38 {
        0u8
    } else if j < 0x3A {
        be_u16_bytes(h.version)[j - 0x38]
    } else if j < 0x3C {
        be_u16_bytes(h.u16_255)[j - 0x3A]
    } else {
        be_u32_bytes(h.blam_fourcc)[j - 0x3C]
    }
}

/// The 64-byte encoding of a header: identifier, descriptive field, group
/// tag, checksum, declared size, reserved padding, version, sentinel, magic.
pub open spec fn spec_header_bytes(h: TagFileHeader) -> Seq<u8> {
    Seq::new(0x40, |j: int| spec_header_byte(h, j))
}

impl TagFileHeader {
    /// Write the 64-byte encoding of this header into `data` at `at`,
    /// leaving every byte outside that range unchanged.
    pub fn write(&self, data: &mut Vec<u8>, at: usize)
        requires
            at + 0x40 <= old(data)@.len(),
        ensures
            final(data)@.len() == old(data)@.len(),
            forall|j: int|
                0 <= j < old(data)@.len() ==> final(data)@[j] == (if at <= j < at + 0x40 {
                    spec_header_bytes(*self)[j - at]
                } else {
                    old(data)@[j]
                }),
    {
        let len = data.len();
        write_u32_be(data, at, self.id);
        let mut k: usize = 0;
        while k < 32
            invariant
                0 <= k <= 32,
                at + 0x40 <= data@.len(),
                data@.len() <= usize::MAX,
                data@.len() == old(data)@.len(),
                forall|j: int|
                    0 <= j < data@.len() ==> data@[j] == (if at <= j < at + 4 {
                        be_u32_bytes(self.id)[j - at]
                    } else if at + 4 <= j < at + 4 + k {
                        self.string@[j - at - 4]
                    } else {
                        old(data)@[j]
                    }),
            decreases 32 - k,
        {
            data[at + 4 + k] = self.string[k];
            k = k + 1;
        }
        write_u32_be(data, at + 0x24, self.group.fourcc());
        write_u32_be(data, at + 0x28, self.crc32);
        write_u32_be(data, at + 0x2C, self.header_size);
        let mut k: usize = 0;
        while k < 8
            invariant
                0 <= k <= 8,
                at + 0x40 <= data@.len(),
                data@.len() <= usize::MAX,
                data@.len() == old(data)@.len(),
                forall|j: int|
                    0 <= j < data@.len() ==> data@[j] == (if at <= j < at + 4 {
                        be_u32_bytes(self.id)[j - at]
                    } else if at + 4 <= j < at + 0x24 {
                        self.string@[j - at - 4]
                    } else if at + 0x24 <= j < at + 0x28 {
                        be_u32_bytes(self.group.spec_fourcc())[j - at - 0x24]
                    } else if at + 0x28 <= j < at + 0x2C {
                        be_u32_bytes(self.crc32)[j - at - 0x28]
                    } else if at + 0x2C <= j < at + 0x30 {
                        be_u32_bytes(self.header_size)[j - at - 0x2C]
                    } else if at + 0x30 <= j < at + 0x30 + k {
                        0u8
                    } else {
                        old(data)@[j]
                    }),
            decreases 8 - k,
        {
            data[at + 0x30 + k] = 0u8;
            k = k + 1;
        }
        write_u16_be(data, at + 0x38, self.version);
        write_u16_be(data, at + 0x3A, self.u16_255);
        write_u32_be(data, at + 0x3C, self.blam_fourcc);
        proof {
            assert forall|j: int| 0 <= j < old(data)@.len() implies final(data)@[j] == (if at <= j
                < at + 0x40 {
                spec_header_bytes(*self)[j - at]
            } else {
                old(data)@[j]
            }) by {
                if at <= j < at + 0x40 {
                    assert(spec_header_bytes(*self)[j - at] == spec_header_byte(*self, j - at));
                }
            }
        }
    }

    /// Read a header back from the 64 bytes of `data` starting at `at`.
    /// Fails with a structural parse failure when the stored group tag is
    /// not a known four-character code.
    pub fn read(data: &[u8], at: usize) -> (r: RinghopperResult<TagFileHeader>)
        requires
            at + 0x40 <= data@.len(),
        ensures
            match r {
                Ok(h) => {
                    &&& TagGroup::spec_from_fourcc(be_u32_at(data@, at + 0x24)) == Some(h.group)
                    &&& h.id == be_u32_at(data@, at as int)
                    &&& h.string@ == data@.subrange(at + 0x04, at + 0x24)
                    &&& h.crc32 == be_u32_at(data@, at + 0x28)
                    &&& h.header_size == be_u32_at(data@, at + 0x2C)
                    &&& h.version == be_u16_at(data@, at + 0x38)
                    &&& h.u16_255 == be_u16_at(data@, at + 0x3A)
                    &&& h.blam_fourcc == be_u32_at(data@, at + 0x3C)
                },
                Err(e) => e matches Error::TagParseFailure,
            },
            r is Ok <==> TagGroup::spec_from_fourcc(be_u32_at(data@, at + 0x24)) is Some,
    {
        let len = data.len();
        proof {
            assert(at + 0x40 <= len);
        }
        let group = match TagGroup::from_fourcc(read_u32_be(data, at + 0x24)) {
            Some(g) => g,
            None => {
                return Err(Error::TagParseFailure);
            },
        };
        let mut string: [u8; 32] = [0u8; 32];
        let mut k: usize = 0;
        while k < 32
            invariant
                0 <= k <= 32,
                at + 0x40 <= data@.len(),
                data@.len() <= usize::MAX,
                string@.len() == 32,
                forall|j: int| 0 <= j < k ==> string@[j] == data@[at + 0x04 + j],
            decreases 32 - k,
        {
            string[k] = data[at + 4 + k];
            k = k + 1;
        }
        proof {
            assert(string@ =~= data@.subrange(at + 0x04, at + 0x24));
        }
        Ok(
            TagFileHeader {
                id: read_u32_be(data, at),
                string,
                group,
                crc32: read_u32_be(data, at + 0x28),
                header_size: read_u32_be(data, at + 0x2C),
                version: read_u16_be(data, at + 0x38),
                u16_255: read_u16_be(data, at + 0x3A),
                blam_fourcc: read_u32_be(data, at + 0x3C),
            },
        )
    }

    /// A header is valid exactly when the magic constant, the sentinel and
    /// the declared header size all match the format's fixed values.
    pub open spec fn spec_valid(&self) -> bool {
        self.blam_fourcc == BLAM_FOURCC && self.u16_255 == HEADER_SENTINEL && self.header_size
            == TAG_FILE_HEADER_LEN
    }

    /// Return `Ok(())` exactly when the header is structurally valid:
    /// the magic constant, the sentinel and the declared header size all
    /// match. Purely structural; no payload byte is touched.
    pub fn validate(&self) -> (r: RinghopperResult<()>)
        ensures
            r is Ok <==> self.spec_valid(),
            r matches Err(e) ==> e matches Error::TagParseFailure,
    {
        if self.blam_fourcc == BLAM_FOURCC && self.u16_255 == HEADER_SENTINEL && self.header_size
            == 0x40 {
            Ok(())
        } else {
            Err(Error::TagParseFailure)
        }
    }
}

/// The capability every concrete schema type implements to take part in tag
/// file encoding and decoding. A schema type knows its group, its schema
/// version and its fixed encoded size, can write itself into a buffer and
/// read itself back, and its encoding determines its value.
pub trait PrimaryTagStruct: Sized {
    /// The group of the tag struct.
    spec fn spec_group() -> TagGroup;

    /// The tag file version of the tag struct's schema.
    spec fn spec_version() -> u16;

    /// The encoded byte size of the tag struct.
    spec fn spec_size() -> usize;

    /// The payload bytes that encode a value.
    spec fn encoded(&self) -> Seq<u8>;

    /// Whether the value can be written in tag file format at all: a
    /// writer fails exactly on values that are not encodable, such as one
    /// whose length field would overflow its fixed on-disk width.
    spec fn spec_encodable(&self) -> bool;

    /// The encoding always has the declared size.
    proof fn lemma_encoded_size(&self)
        ensures
            self.encoded().len() == Self::spec_size(),
    ;

    /// The encoding determines the value: equal encodings mean equal values.
    proof fn lemma_encoded_injective(a: &Self, b: &Self)
        ensures
            a.encoded() == b.encoded() ==> a == b,
    ;

    /// Get the tag group of the tag struct.
    fn group() -> (g: TagGroup)
        ensures
            g == Self::spec_group(),
    ;

    /// Get the version of the tag struct's tag file.
    fn version() -> (v: u16)
        ensures
            v == Self::spec_version(),
    ;

    /// Get the encoded byte size of the tag struct.
    fn size() -> (n: usize)
        ensures
            n == Self::spec_size(),
    ;

    /// Write the value's payload bytes into `data` at `at`, bounded by
    /// `struct_end`. On success the bytes at `at` are exactly the value's
    /// encoding; bytes outside the encoding's range are never touched.
    fn write_to_tag_file(&self, data: &mut Vec<u8>, at: usize, struct_end: usize) -> (r:
        RinghopperResult<()>)
        requires
            at + Self::spec_size() <= struct_end,
            struct_end <= old(data)@.len(),
        ensures
            final(data)@.len() == old(data)@.len(),
            forall|j: int|
                0 <= j < old(data)@.len() && !(at <= j < at + Self::spec_size())
                    ==> final(data)@[j] == old(data)@[j],
            r is Ok <==> self.spec_encodable(),
            r is Ok ==> final(data)@.subrange(at as int, at + Self::spec_size())
                == self.encoded(),
    ;

    /// Read a value back from the bytes of `data` at `at`, bounded by
    /// `struct_end`. Succeeds exactly when those bytes are the encoding of
    /// some value, and then returns that value.
    fn read_from_tag_file(data: &[u8], at: usize, struct_end: usize) -> (r: RinghopperResult<
        Self>)
        requires
            at + Self::spec_size() <= struct_end,
            struct_end <= data@.len(),
        ensures
            r matches Ok(v) ==> v.encoded() == data@.subrange(at as int, at + Self::spec_size()),
            (exists|v: Self| v.encoded() == data@.subrange(at as int, at + Self::spec_size()))
                ==> r is Ok,
    ;
}

/// The payload of a tag file: every byte strictly after the header.
pub open spec fn spec_payload(file: Seq<u8>) -> Seq<u8> {
    file.subrange(0x40, file.len() as int)
}

/// The group four-character code stored in a tag file's header.
pub open spec fn spec_stored_group_code(file: Seq<u8>) -> u32 {
    be_u32_at(file, 0x24)
}

/// The checksum stored in a tag file's header.
pub open spec fn spec_stored_crc(file: Seq<u8>) -> u32 {
    be_u32_at(file, 0x28)
}

/// The schema version stored in a tag file's header.
pub open spec fn spec_stored_version(file: Seq<u8>) -> u16 {
    be_u16_at(file, 0x38)
}

/// A tag file is long enough for a header and stores a known group code.
pub open spec fn spec_file_parses(file: Seq<u8>) -> bool {
    file.len() >= 0x40 && TagGroup::spec_from_fourcc(spec_stored_group_code(file)) is Some
}

/// The stored magic constant, sentinel and declared header size all match
/// the format's fixed values.
pub open spec fn spec_header_structurally_valid(file: Seq<u8>) -> bool {
    be_u32_at(file, 0x3C) == BLAM_FOURCC && be_u16_at(file, 0x3A) == HEADER_SENTINEL && be_u32_at(
        file,
        0x2C,
    ) == TAG_FILE_HEADER_LEN
}

/// The stored checksum permits the file under the given strictness: it is
/// the disable sentinel, or the mode is relaxed, or it equals the payload's
/// checksum.
pub open spec fn spec_checksum_ok(file: Seq<u8>, strictness: ParseStrictness) -> bool {
    spec_stored_crc(file) == IGNORED_CRC32 || strictness is Relaxed || crc32_of(
        spec_payload(file),
    ) == spec_stored_crc(file)
}

/// All header gates pass: the file parses, is structurally valid, and its
/// checksum permits it.
pub open spec fn spec_gates_pass(file: Seq<u8>, strictness: ParseStrictness) -> bool {
    spec_file_parses(file) && spec_header_structurally_valid(file) && spec_checksum_ok(
        file,
        strictness,
    )
}

impl TagFileHeader {
    /// Return `Ok(())` exactly when this header's group and version match
    /// the schema type `T`. The group is checked before the version: a
    /// wrong group reports a type mismatch even if the version is also
    /// wrong.
    pub fn verify_group_matches<T: PrimaryTagStruct>(&self) -> (r: RinghopperResult<()>)
        ensures
            r is Ok <==> self.group == T::spec_group() && self.version == T::spec_version(),
            r matches Err(e) ==> if self.group != T::spec_group() {
                e matches Error::TagHeaderGroupTypeMismatch
            } else {
                e matches Error::TagHeaderGroupVersionMismatch
            },
    {
        if self.group != T::group() {
            return Err(Error::TagHeaderGroupTypeMismatch);
        }
        if self.version != T::version() {
            return Err(Error::TagHeaderGroupVersionMismatch);
        }
        Ok(())
    }
}

/// Methods for handling tag files.
pub struct TagFile {}

impl TagFile {
    /// Check the payload checksum against the header's stored checksum.
    /// Succeeds exactly when the stored checksum is the disable sentinel,
    /// or the mode is relaxed, or the stored and computed checksums agree.
    pub fn validate_crc32(header: &TagFileHeader, data_after_header: &[u8], strictness:
        ParseStrictness) -> (r: RinghopperResult<()>)
        ensures
            r is Ok <==> (header.crc32 == IGNORED_CRC32 || strictness is Relaxed || crc32_of(
                data_after_header@,
            ) == header.crc32),
            r matches Err(e) ==> e matches Error::ChecksumMismatch,
    {
        let actual_crc32 = if header.crc32 == IGNORED_CRC32 {
            None
        } else {
            Some(crc32(data_after_header))
        };
        match strictness {
            ParseStrictness::Relaxed => Ok(()),
            ParseStrictness::Strict => {
                match actual_crc32 {
                    Some(c) => {
                        if c != header.crc32 {
                            Err(Error::ChecksumMismatch)
                        } else {
                            Ok(())
                        }
                    },
                    None => Ok(()),
                }
            },
        }
    }

    /// Returns the header and everything after the header without parsing
    /// the actual tag data. The header is structurally validated and the
    /// checksum is checked under the given strictness.
    pub fn load_header_and_data<'a>(file: &'a [u8], strictness: ParseStrictness) -> (r:
        RinghopperResult<(TagFileHeader, &'a [u8])>)
        ensures
            r is Ok <==> spec_gates_pass(file@, strictness),
            r matches Ok((h, rest)) ==> {
                &&& rest@ == spec_payload(file@)
                &&& Some(h.group) == TagGroup::spec_from_fourcc(spec_stored_group_code(file@))
                &&& h.crc32 == spec_stored_crc(file@)
                &&& h.version == spec_stored_version(file@)
                &&& h.id == be_u32_at(file@, 0)
                &&& h.string@ == file@.subrange(0x04, 0x24)
                &&& h.header_size == be_u32_at(file@, 0x2C)
                &&& h.u16_255 == be_u16_at(file@, 0x3A)
                &&& h.blam_fourcc == be_u32_at(file@, 0x3C)
            },
            r matches Err(e) ==> if file@.len() < 0x40 {
                e matches Error::OutOfBounds
            } else if !spec_file_parses(file@) || !spec_header_structurally_valid(file@) {
                e matches Error::TagParseFailure
            } else {
                e matches Error::ChecksumMismatch
            },
    {
        let len = file.len();
        if len < 0x40 {
            return Err(Error::OutOfBounds);
        }
        let header = match TagFileHeader::read(file, 0) {
            Ok(h) => h,
            Err(e) => {
                return Err(e);
            },
        };
        match header.validate() {
            Ok(()) => (),
            Err(e) => {
                return Err(e);
            },
        };
        let data_after_header = &file[0x40..len];
        match Self::validate_crc32(&header, data_after_header, strictness) {
            Ok(()) => (),
            Err(e) => {
                return Err(e);
            },
        };
        Ok((header, data_after_header))
    }

    /// Read a tag file buffer into a value of the schema type `T`.
    ///
    /// The gates run in a fixed order: header bounds and group code, then
    /// structural validity, then the checksum, then the group, then the
    /// version, then the payload bounds, then the payload decode itself;
    /// each failing gate reports its own error kind.
    pub fn read_tag_from_file_buffer<T: PrimaryTagStruct>(file: &[u8], strictness:
        ParseStrictness) -> (r: RinghopperResult<T>)
        ensures
            r is Ok <==> (spec_gates_pass(file@, strictness) && TagGroup::spec_from_fourcc(
                spec_stored_group_code(file@),
            ) == Some(T::spec_group()) && spec_stored_version(file@) == T::spec_version()
                && spec_payload(file@).len() >= T::spec_size() && (exists|v: T|
                v.encoded() == spec_payload(file@).subrange(0, T::spec_size() as int))),
            r matches Ok(v) ==> v.encoded() == spec_payload(file@).subrange(
                0,
                T::spec_size() as int,
            ),
            r matches Err(e) ==> if file@.len() < 0x40 {
                e matches Error::OutOfBounds
            } else if !spec_file_parses(file@) || !spec_header_structurally_valid(file@) {
                e matches Error::TagParseFailure
            } else if !spec_checksum_ok(file@, strictness) {
                e matches Error::ChecksumMismatch
            } else if TagGroup::spec_from_fourcc(spec_stored_group_code(file@)) != Some(
                T::spec_group(),
            ) {
                e matches Error::TagHeaderGroupTypeMismatch
            } else if spec_stored_version(file@) != T::spec_version() {
                e matches Error::TagHeaderGroupVersionMismatch
            } else if spec_payload(file@).len() < T::spec_size() {
                e matches Error::OutOfBounds
            } else {
                !(exists|v: T| v.encoded() == spec_payload(file@).subrange(
                    0,
                    T::spec_size() as int,
                ))
            },
    {
        let (header, data_after_header) = match Self::load_header_and_data(file, strictness) {
            Ok(p) => p,
            Err(e) => {
                return Err(e);
            },
        };
        match header.verify_group_matches::<T>() {
            Ok(()) => (),
            Err(e) => {
                return Err(e);
            },
        };
        let size = T::size();
        if data_after_header.len() < size {
            return Err(Error::OutOfBounds);
        }
        match T::read_from_tag_file(data_after_header, 0, size) {
            Ok(v) => Ok(v),
            Err(e) => Err(e),
        }
    }
}

/// The byte at offset `j` of the header that `to_tag_file` freshly builds:
/// identifier and descriptive field unset, declared size and sentinel and
/// magic at their fixed values, group, checksum and version as given.
pub open spec fn spec_fresh_header_byte(group: TagGroup, crc: u32, version: u16, j: int) -> u8 {
    if j < 0x04 {
        be_u32_bytes(0)[j]
    } else if j < 0x24 {
        0u8
    } else if j < 0x28 {
        be_u32_bytes(group.spec_fourcc())[j - 0x24]
    } else if j < 0x2C {
        be_u32_bytes(crc)[j - 0x28]
    } else if j < 0x30 {
        be_u32_bytes(TAG_FILE_HEADER_LEN as u32)[j - 0x2C]
    } else if j < 0x38 {
        0u8
    } else if j < 0x3A {
        be_u16_bytes(version)[j - 0x38]
    } else if j < 0x3C {
        be_u16_bytes(HEADER_SENTINEL)[j - 0x3A]
    } else {
        be_u32_bytes(BLAM_FOURCC)[j - 0x3C]
    }
}

/// The header bytes that `to_tag_file` freshly builds.
pub open spec fn spec_fresh_header_bytes(group: TagGroup, crc: u32, version: u16) -> Seq<u8> {
    Seq::new(0x40, |j: int| spec_fresh_header_byte(group, crc, version, j))
}

/// The full tag file that encodes a payload under a group and version: a
/// fresh header whose checksum covers the payload, then the payload.
pub open spec fn spec_tag_file_for(group: TagGroup, version: u16, payload: Seq<u8>) -> Seq<u8> {
    spec_fresh_header_bytes(group, crc32_of(payload), version) + payload
}

/// The full tag file that encodes a schema value.
pub open spec fn spec_tag_file_bytes<T: PrimaryTagStruct>(x: T) -> Seq<u8> {
    spec_tag_file_for(T::spec_group(), T::spec_version(), x.encoded())
}

impl TagFile {
    /// Build the fresh header for `group`, `crc`, `version` and write it at
    /// the start of `data`.
    fn write_fresh_header(data: &mut Vec<u8>, group: TagGroup, crc: u32, version: u16)
        requires
            0x40 <= old(data)@.len(),
        ensures
            final(data)@.len() == old(data)@.len(),
            forall|j: int|
                0 <= j < old(data)@.len() ==> final(data)@[j] == (if j < 0x40 {
                    spec_fresh_header_bytes(group, crc, version)[j]
                } else {
                    old(data)@[j]
                }),
    {
        let new_header = TagFileHeader {
            id: 0,
            string: [0u8; 32],
            group,
            crc32: crc,
            header_size: 0x40,
            version,
            u16_255: HEADER_SENTINEL,
            blam_fourcc: BLAM_FOURCC,
        };
        new_header.write(data, 0);
        proof {
            assert forall|j: int| 0 <= j < 0x40 implies spec_header_bytes(new_header)[j]
                == spec_fresh_header_bytes(group, crc, version)[j] by {
                assert(spec_header_bytes(new_header)[j] == spec_header_byte(new_header, j));
                assert(spec_fresh_header_bytes(group, crc, version)[j] == spec_fresh_header_byte(
                    group,
                    crc,
                    version,
                    j,
                ));
            }
        }
    }

    /// Encode a schema value into tag file format. On success the returned
    /// buffer is exactly the fresh header followed by the value's payload
    /// encoding, with the checksum computed over the payload; it can be
    /// loaded back with [`TagFile::read_tag_from_file_buffer`]. Fails only
    /// if the value's own payload encoding fails, or — never on a real
    /// machine — if the total size cannot be held in a machine word.
    pub fn to_tag_file<T: PrimaryTagStruct>(tag_data: &T) -> (r: RinghopperResult<Vec<u8>>)
        ensures
            r matches Ok(v) ==> v@ == spec_tag_file_bytes::<T>(*tag_data),
            0x40 + T::spec_size() <= usize::MAX ==> (r is Ok <==> tag_data.spec_encodable()),
            0x40 + T::spec_size() > usize::MAX ==> (r matches Err(e) && e matches
            Error::OutOfBounds),
    {
        let header_len = TAG_FILE_HEADER_LEN;
        let tag_file_len = T::size();
        if tag_file_len > usize::MAX - header_len {
            return Err(Error::OutOfBounds);
        }
        let capacity = header_len + tag_file_len;
        let mut data: Vec<u8> = vec![0u8; capacity];
        match tag_data.write_to_tag_file(&mut data, header_len, capacity) {
            Ok(()) => (),
            Err(e) => {
                return Err(e);
            },
        };
        let crc_val = crc32(&data[header_len..capacity]);
        proof {
            tag_data.lemma_encoded_size();
            assert(data@.subrange(0x40, data@.len() as int) =~= tag_data.encoded());
        }
        Self::write_fresh_header(&mut data, T::group(), crc_val, T::version());
        proof {
            assert(data@ =~= spec_tag_file_bytes::<T>(*tag_data));
        }
        Ok(data)
    }
}

/// A type-erased tag value: the group, the schema version and the payload
/// bytes of some schema instance. Tag trees and caches hold heterogeneous
/// collections of these behind one concrete type; a caller that knows the
/// concrete schema type probes it back out with [`TagInstance::get_ref`].
#[derive(Debug)]
pub struct TagInstance {
    group: TagGroup,
    version: u16,
    payload: Vec<u8>,
}

impl TagInstance {
    /// The group of the erased tag.
    pub closed spec fn spec_group(&self) -> TagGroup {
        self.group
    }

    /// The schema version of the erased tag.
    pub closed spec fn spec_version(&self) -> u16 {
        self.version
    }

    /// The payload bytes of the erased tag.
    pub closed spec fn spec_payload(&self) -> Seq<u8> {
        self.payload@
    }

    /// Erase a schema value: record its group and version and encode its
    /// payload bytes. Fails only if the value's own payload encoding fails.
    pub fn from_struct<T: PrimaryTagStruct>(x: &T) -> (r: RinghopperResult<TagInstance>)
        ensures
            r is Ok <==> x.spec_encodable(),
            r matches Ok(t) ==> t.spec_group() == T::spec_group() && t.spec_version()
                == T::spec_version() && t.spec_payload() == x.encoded(),
    {
        let size = T::size();
        let mut payload: Vec<u8> = vec![0u8; size];
        match x.write_to_tag_file(&mut payload, 0, size) {
            Ok(()) => (),
            Err(e) => {
                return Err(e);
            },
        };
        proof {
            assert(payload@ =~= payload@.subrange(0, T::spec_size() as int));
        }
        Ok(TagInstance { group: T::group(), version: T::version(), payload })
    }

    /// The group of the erased tag.
    pub fn group(&self) -> (g: TagGroup)
        ensures
            g == self.spec_group(),
    {
        self.group
    }

    /// The schema version of the erased tag.
    pub fn version(&self) -> (v: u16)
        ensures
            v == self.spec_version(),
    {
        self.version
    }

    /// The payload byte size of the erased tag.
    pub fn size(&self) -> (n: usize)
        ensures
            n == self.spec_payload().len(),
    {
        self.payload.len()
    }

    /// Probe the erased tag as a concrete schema type. Returns the value
    /// decoded from the payload, or `None` — not an error — when the
    /// group, the version or the payload does not match the type.
    pub fn get_ref<T: PrimaryTagStruct>(&self) -> (r: Option<T>)
        ensures
            r matches Some(v) ==> self.spec_group() == T::spec_group() && self.spec_version()
                == T::spec_version() && v.encoded() == self.spec_payload(),
            r is Some <==> (self.spec_group() == T::spec_group() && self.spec_version()
                == T::spec_version() && self.spec_payload().len() == T::spec_size() && (exists|
                v: T,
            | v.encoded() == self.spec_payload())),
    {
        if !(self.group == T::group()) || self.version != T::version() {
            return None;
        }
        let size = T::size();
        if self.payload.len() != size {
            return None;
        }
        proof {
            assert(self.spec_payload().subrange(0, T::spec_size() as int) =~= self.spec_payload());
        }
        match T::read_from_tag_file(self.payload.as_slice(), 0, size) {
            Ok(v) => Some(v),
            Err(_) => None,
        }
    }

    /// Store a concrete schema value into this erased tag, replacing its
    /// group, version and payload. On failure of the value's own encoding
    /// the erased tag is left unchanged.
    pub fn store<T: PrimaryTagStruct>(&mut self, x: &T) -> (r: RinghopperResult<()>)
        ensures
            r is Ok <==> x.spec_encodable(),
            r is Ok ==> final(self).spec_group() == T::spec_group() && final(self).spec_version()
                == T::spec_version() && final(self).spec_payload() == x.encoded(),
            r is Err ==> *final(self) == *old(self),
    {
        match Self::from_struct(x) {
            Ok(t) => {
                *self = t;
                Ok(())
            },
            Err(e) => Err(e),
        }
    }

    /// Encode the erased tag into tag file format: the fresh header, with
    /// the checksum computed over the payload, then the payload itself.
    pub fn to_tag_file(&self) -> (r: RinghopperResult<Vec<u8>>)
        ensures
            r matches Ok(v) ==> v@ == spec_tag_file_for(
                self.spec_group(),
                self.spec_version(),
                self.spec_payload(),
            ),
            r is Ok <==> self.spec_payload().len() + 0x40 <= usize::MAX,
    {
        let header_len = TAG_FILE_HEADER_LEN;
        let payload_len = self.payload.len();
        if payload_len > usize::MAX - header_len {
            return Err(Error::OutOfBounds);
        }
        let capacity = header_len + payload_len;
        let mut data: Vec<u8> = vec![0u8; capacity];
        let mut k: usize = 0;
        while k < payload_len
            invariant
                0 <= k <= payload_len,
                header_len == 0x40,
                payload_len == self.spec_payload().len(),
                data@.len() == 0x40 + payload_len,
                data@.len() <= usize::MAX,
                forall|j: int| 0 <= j < k ==> data@[0x40 + j] == self.spec_payload()[j],
            decreases payload_len - k,
        {
            data[header_len + k] = self.payload[k];
            k = k + 1;
        }
        let crc_val = crc32(&data[header_len..capacity]);
        proof {
            assert(data@.subrange(0x40, data@.len() as int) =~= self.spec_payload());
        }
        TagFile::write_fresh_header(&mut data, self.group, crc_val, self.version);
        proof {
            assert(data@ =~= spec_tag_file_for(
                self.spec_group(),
                self.spec_version(),
                self.spec_payload(),
            ));
        }
        Ok(data)
    }
}

impl Clone for TagInstance {
    /// Cloning preserves the group, the version and the payload.
    fn clone(&self) -> (r: Self)
        ensures
            r.spec_group() == self.spec_group(),
            r.spec_version() == self.spec_version(),
            r.spec_payload() == self.spec_payload(),
    {
        TagInstance { group: self.group, version: self.version, payload: self.payload.clone() }
    }
}

impl TagFile {
    /// Read a tag file buffer into a type-erased tag, whatever its group.
    /// The header gates — bounds, group code, structural validity,
    /// checksum — run exactly as for a typed read; the payload is kept as
    /// bytes rather than decoded against a schema.
    pub fn read_any_tag_from_file_buffer(file: &[u8], strictness: ParseStrictness) -> (r:
        RinghopperResult<TagInstance>)
        ensures
            r is Ok <==> spec_gates_pass(file@, strictness),
            r matches Ok(t) ==> {
                &&& Some(t.spec_group()) == TagGroup::spec_from_fourcc(
                    spec_stored_group_code(file@),
                )
                &&& t.spec_version() == spec_stored_version(file@)
                &&& t.spec_payload() == spec_payload(file@)
            },
            r matches Err(e) ==> if file@.len() < 0x40 {
                e matches Error::OutOfBounds
            } else if !spec_file_parses(file@) || !spec_header_structurally_valid(file@) {
                e matches Error::TagParseFailure
            } else {
                e matches Error::ChecksumMismatch
            },
    {
        let (header, data_after_header) = match Self::load_header_and_data(file, strictness) {
            Ok(p) => p,
            Err(e) => {
                return Err(e);
            },
        };
        Ok(
            TagInstance {
                group: header.group,
                version: header.version,
                payload: vstd::slice::slice_to_vec(data_after_header),
            },
        )
    }
}

/// Round trip of the tag file codec: the encoding of a schema value passes
/// every decode gate under strict parsing, and the only value whose payload
/// encoding matches it is the value itself. Together with the codec
/// contracts this pins `read_tag_from_file_buffer` on the output of
/// `to_tag_file` to return exactly the encoded value.
pub proof fn lemma_tag_file_round_trip<T: PrimaryTagStruct>(x: T, file: Seq<u8>)
    requires
        file == spec_tag_file_bytes::<T>(x),
    ensures
        spec_gates_pass(file, ParseStrictness::Strict),
        TagGroup::spec_from_fourcc(spec_stored_group_code(file)) == Some(T::spec_group()),
        spec_stored_version(file) == T::spec_version(),
        spec_payload(file) == x.encoded(),
        spec_payload(file).len() == T::spec_size(),
        spec_payload(file).subrange(0, T::spec_size() as int) == x.encoded(),
        forall|y: T|
            y.encoded() == spec_payload(file).subrange(0, T::spec_size() as int) ==> y == x,
{
    x.lemma_encoded_size();
    let header = spec_fresh_header_bytes(T::spec_group(), crc32_of(x.encoded()), T::spec_version());
    assert(file.len() == 0x40 + x.encoded().len());
    assert forall|k: int| 0 <= k < 4 implies file[0x24 + k] == be_u32_bytes(
        T::spec_group().spec_fourcc(),
    )[k] by {
        assert(file[0x24 + k] == header[0x24 + k]);
    }
    lemma_be_u32_read_back(file, 0x24, T::spec_group().spec_fourcc());
    assert forall|k: int| 0 <= k < 4 implies file[0x28 + k] == be_u32_bytes(
        crc32_of(x.encoded()),
    )[k] by {
        assert(file[0x28 + k] == header[0x28 + k]);
    }
    lemma_be_u32_read_back(file, 0x28, crc32_of(x.encoded()));
    assert forall|k: int| 0 <= k < 4 implies #[trigger] file[0x2C + k] == be_u32_bytes(
        TAG_FILE_HEADER_LEN as u32,
    )[k] by {
        assert(file[0x2C + k] == header[0x2C + k]);
    }
    lemma_be_u32_read_back(file, 0x2C, TAG_FILE_HEADER_LEN as u32);
    assert forall|k: int| 0 <= k < 2 implies file[0x38 + k] == be_u16_bytes(T::spec_version())[k]
        by {
        assert(file[0x38 + k] == header[0x38 + k]);
    }
    lemma_be_u16_read_back(file, 0x38, T::spec_version());
    assert forall|k: int| 0 <= k < 2 implies file[0x3A + k] == be_u16_bytes(HEADER_SENTINEL)[k] by {
        assert(file[0x3A + k] == header[0x3A + k]);
    }
    lemma_be_u16_read_back(file, 0x3A, HEADER_SENTINEL);
    assert forall|k: int| 0 <= k < 4 implies file[0x3C + k] == be_u32_bytes(BLAM_FOURCC)[k] by {
        assert(file[0x3C + k] == header[0x3C + k]);
    }
    lemma_be_u32_read_back(file, 0x3C, BLAM_FOURCC);
    assert(spec_payload(file) =~= x.encoded());
    assert(spec_payload(file).subrange(0, T::spec_size() as int) =~= x.encoded());
    assert(spec_payload(file).subrange(0, T::spec_size() as int) == x.encoded());
    assert forall|y: T|
        y.encoded() == spec_payload(file).subrange(0, T::spec_size() as int) implies y == x by {
        T::lemma_encoded_injective(&y, &x);
    }
}

/// The checksum gates of the two parse modes: a file whose stored checksum
/// is enabled but does not match its payload fails the strict gate and
/// passes the relaxed gate.
pub proof fn lemma_checksum_gates(file: Seq<u8>)
    requires
        spec_stored_crc(file) != IGNORED_CRC32,
        crc32_of(spec_payload(file)) != spec_stored_crc(file),
    ensures
        !spec_checksum_ok(file, ParseStrictness::Strict),
        spec_checksum_ok(file, ParseStrictness::Relaxed),
{
}

/// Reading the encoding of a header yields its fields back.
pub proof fn lemma_header_bytes_read_back(h: TagFileHeader, file: Seq<u8>)
    requires
        file.len() >= 0x40,
        file.subrange(0, 0x40) == spec_header_bytes(h),
    ensures
        be_u32_at(file, 0x00) == h.id,
        file.subrange(0x04, 0x24) == h.string@,
        be_u32_at(file, 0x24) == h.group.spec_fourcc(),
        be_u32_at(file, 0x28) == h.crc32,
        be_u32_at(file, 0x2C) == h.header_size,
        be_u16_at(file, 0x38) == h.version,
        be_u16_at(file, 0x3A) == h.u16_255,
        be_u32_at(file, 0x3C) == h.blam_fourcc,
{
    assert forall|j: int| 0 <= j < 0x40 implies file[j] == spec_header_byte(h, j) by {
        assert(file[j] == file.subrange(0, 0x40)[j]);
    }
    lemma_be_u32_read_back(file, 0x00, h.id);
    assert(file.subrange(0x04, 0x24) =~= h.string@);
    lemma_be_u32_read_back(file, 0x24, h.group.spec_fourcc());
    lemma_be_u32_read_back(file, 0x28, h.crc32);
    lemma_be_u32_read_back(file, 0x2C, h.header_size);
    lemma_be_u16_read_back(file, 0x38, h.version);
    lemma_be_u16_read_back(file, 0x3A, h.u16_255);
    lemma_be_u32_read_back(file, 0x3C, h.blam_fourcc);
}

} // verus!
