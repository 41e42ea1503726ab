//! Tag file codec behavior: round trips, checksum enforcement, header
//! gating and type/version gating.

use ringhopper::error::Error;
use ringhopper::primitive::TagGroup;
use ringhopper::schema::SimpleBitmap;
use ringhopper::tag::{ParseStrictness, TagFile, TagFileHeader, TagInstance, IGNORED_CRC32};

fn sample() -> SimpleBitmap {
    SimpleBitmap { width: 4, height: 2, pixel_count: 8 }
}

fn sample_file() -> Vec<u8> {
    TagFile::to_tag_file(&sample()).unwrap()
}

#[test]
fn round_trip_reproduces_all_fields() {
    let file = sample_file();
    let back: SimpleBitmap = TagFile::read_tag_from_file_buffer(&file, ParseStrictness::Strict).unwrap();
    assert_eq!(back, sample());
}

#[test]
fn encoded_header_layout_is_exact() {
    let file = sample_file();
    assert_eq!(file.len(), 0x40 + 8);
    // group tag "bitm"
    assert_eq!(&file[0x24..0x28], &[0x62, 0x69, 0x74, 0x6D]);
    // declared header size 0x40, big-endian
    assert_eq!(&file[0x2C..0x30], &[0, 0, 0, 0x40]);
    // schema version 1, sentinel 0x00FF
    assert_eq!(&file[0x38..0x3C], &[0, 1, 0x00, 0xFF]);
    // magic constant "blam"
    assert_eq!(&file[0x3C..0x40], &[0x62, 0x6C, 0x61, 0x6D]);
    // payload: width 4, height 2, pixel count 8, big-endian
    assert_eq!(&file[0x40..], &[0, 4, 0, 2, 0, 0, 0, 8]);
}

#[test]
fn encoded_checksum_is_crc32_of_payload() {
    let file = sample_file();
    let stored = u32::from_be_bytes([file[0x28], file[0x29], file[0x2A], file[0x2B]]);
    assert_eq!(stored, crc32fast::hash(&file[0x40..]));
}

#[test]
fn header_read_back_matches_encoding() {
    let file = sample_file();
    let header = TagFileHeader::read(&file, 0).unwrap();
    assert!(header.validate().is_ok());
    assert_eq!(header.group, TagGroup::Bitmap);
    assert_eq!(header.version, 1);
    assert_eq!(header.header_size, 0x40);
    assert_eq!(header.u16_255, 0x00FF);
    assert_eq!(header.crc32, crc32fast::hash(&file[0x40..]));
}

#[test]
fn corrupt_payload_fails_strict_succeeds_relaxed() {
    for i in 0x40..0x48 {
        let mut file = sample_file();
        file[i] ^= 0xFF;
        let strict: Result<SimpleBitmap, Error> =
            TagFile::read_tag_from_file_buffer(&file, ParseStrictness::Strict);
        assert!(matches!(strict, Err(Error::ChecksumMismatch)));
        let relaxed: Result<SimpleBitmap, Error> =
            TagFile::read_tag_from_file_buffer(&file, ParseStrictness::Relaxed);
        assert!(relaxed.is_ok());
    }
}

#[test]
fn disabled_checksum_tolerates_corruption() {
    let mut file = sample_file();
    for b in &mut file[0x28..0x2C] {
        *b = 0xFF;
    }
    assert_eq!(
        u32::from_be_bytes([file[0x28], file[0x29], file[0x2A], file[0x2B]]),
        IGNORED_CRC32
    );
    file[0x41] ^= 0xFF;
    let r: Result<SimpleBitmap, Error> =
        TagFile::read_tag_from_file_buffer(&file, ParseStrictness::Strict);
    assert!(r.is_ok());
}

#[test]
fn flipped_magic_is_structural_failure() {
    let mut file = sample_file();
    file[0x3C] ^= 0xFF;
    let r: Result<SimpleBitmap, Error> =
        TagFile::read_tag_from_file_buffer(&file, ParseStrictness::Strict);
    assert!(matches!(r, Err(Error::TagParseFailure)));
}

#[test]
fn flipped_sentinel_is_structural_failure() {
    let mut file = sample_file();
    file[0x3A] = 0x12;
    let r: Result<SimpleBitmap, Error> =
        TagFile::read_tag_from_file_buffer(&file, ParseStrictness::Strict);
    assert!(matches!(r, Err(Error::TagParseFailure)));
}

#[test]
fn wrong_declared_header_size_is_structural_failure() {
    let mut file = sample_file();
    file[0x2F] = 0x41;
    let r: Result<SimpleBitmap, Error> =
        TagFile::read_tag_from_file_buffer(&file, ParseStrictness::Strict);
    assert!(matches!(r, Err(Error::TagParseFailure)));
}

#[test]
fn header_gating_runs_before_checksum() {
    let mut file = sample_file();
    file[0x3C] ^= 0xFF;
    file[0x40] ^= 0xFF;
    let r: Result<SimpleBitmap, Error> =
        TagFile::read_tag_from_file_buffer(&file, ParseStrictness::Strict);
    assert!(matches!(r, Err(Error::TagParseFailure)));
}

#[test]
fn wrong_group_is_type_mismatch() {
    let mut file = sample_file();
    file[0x24..0x28].copy_from_slice(&[0x77, 0x65, 0x61, 0x70]); // "weap"
    let r: Result<SimpleBitmap, Error> =
        TagFile::read_tag_from_file_buffer(&file, ParseStrictness::Strict);
    assert!(matches!(r, Err(Error::TagHeaderGroupTypeMismatch)));
}

#[test]
fn wrong_version_is_version_mismatch() {
    let mut file = sample_file();
    file[0x39] = 9;
    let r: Result<SimpleBitmap, Error> =
        TagFile::read_tag_from_file_buffer(&file, ParseStrictness::Strict);
    assert!(matches!(r, Err(Error::TagHeaderGroupVersionMismatch)));
}

#[test]
fn type_mismatch_is_checked_before_version_mismatch() {
    let mut file = sample_file();
    file[0x24..0x28].copy_from_slice(&[0x77, 0x65, 0x61, 0x70]); // "weap"
    file[0x39] = 9;
    let r: Result<SimpleBitmap, Error> =
        TagFile::read_tag_from_file_buffer(&file, ParseStrictness::Strict);
    assert!(matches!(r, Err(Error::TagHeaderGroupTypeMismatch)));
}

#[test]
fn truncated_file_is_out_of_bounds() {
    let file = sample_file();
    let r: Result<SimpleBitmap, Error> =
        TagFile::read_tag_from_file_buffer(&file[..0x20], ParseStrictness::Strict);
    assert!(matches!(r, Err(Error::OutOfBounds)));
}

#[test]
fn unknown_group_code_is_structural_failure() {
    let mut file = sample_file();
    file[0x24..0x28].copy_from_slice(&[0x7A, 0x7A, 0x7A, 0x7A]);
    let r: Result<SimpleBitmap, Error> =
        TagFile::read_tag_from_file_buffer(&file, ParseStrictness::Strict);
    assert!(matches!(r, Err(Error::TagParseFailure)));
}

#[test]
fn load_header_and_data_splits_payload() {
    let file = sample_file();
    let (header, rest) = TagFile::load_header_and_data(&file, ParseStrictness::Strict).unwrap();
    assert_eq!(header.group, TagGroup::Bitmap);
    assert_eq!(rest, &file[0x40..]);
}

#[test]
fn read_any_tag_keeps_group_version_and_payload() {
    let file = sample_file();
    let erased = TagFile::read_any_tag_from_file_buffer(&file, ParseStrictness::Strict).unwrap();
    assert_eq!(erased.group(), TagGroup::Bitmap);
    assert_eq!(erased.version(), 1);
    assert_eq!(erased.size(), 8);
    let back: SimpleBitmap = erased.get_ref().unwrap();
    assert_eq!(back, sample());
}

#[test]
fn erased_round_trip_through_tag_file() {
    let erased = TagInstance::from_struct(&sample()).unwrap();
    let file = erased.to_tag_file().unwrap();
    assert_eq!(file, sample_file());
    let again = TagFile::read_any_tag_from_file_buffer(&file, ParseStrictness::Strict).unwrap();
    assert_eq!(again.group(), TagGroup::Bitmap);
    let back: SimpleBitmap = again.get_ref().unwrap();
    assert_eq!(back, sample());
}

#[test]
fn get_ref_refuses_other_group() {
    let file = {
        let mut f = TagInstance::from_struct(&sample()).unwrap().to_tag_file().unwrap();
        f[0x24..0x28].copy_from_slice(&[0x77, 0x65, 0x61, 0x70]); // "weap"
        f
    };
    let erased = TagFile::read_any_tag_from_file_buffer(&file, ParseStrictness::Relaxed).unwrap();
    assert_eq!(erased.group(), TagGroup::Weapon);
    let back: Option<SimpleBitmap> = erased.get_ref();
    assert!(back.is_none());
}

#[test]
fn store_replaces_erased_contents() {
    let mut erased = TagInstance::from_struct(&sample()).unwrap();
    let other = SimpleBitmap { width: 1, height: 1, pixel_count: 1 };
    erased.store(&other).unwrap();
    let back: SimpleBitmap = erased.get_ref().unwrap();
    assert_eq!(back, other);
}
