//! Overlay semantics of the virtual tag directory: construction checks,
//! read/write root resolution, listing merge and decode error mapping.

use ringhopper::error::Error;
use ringhopper::overlay::{DirEntry, VirtualTagDirectory};
use ringhopper::primitive::{TagGroup, TagPath};
use ringhopper::schema::SimpleBitmap;
use ringhopper::tag::TagInstance;

fn two_roots() -> VirtualTagDirectory {
    VirtualTagDirectory::new(
        vec![String::from("main"), String::from("fallback")],
        &vec![true, true],
    )
    .unwrap()
}

fn entry(name: &str, is_dir: bool) -> DirEntry {
    DirEntry { name: String::from(name), is_dir }
}

#[test]
fn construction_requires_existing_directories() {
    let r = VirtualTagDirectory::new(
        vec![String::from("main"), String::from("missing")],
        &vec![true, false],
    );
    assert!(matches!(r, Err(Error::InvalidTagsDirectory)));
    let none = VirtualTagDirectory::new(vec![], &vec![]);
    assert!(matches!(none, Err(Error::InvalidTagsDirectory)));
    assert_eq!(two_roots().root_at(0), "main");
    assert_eq!(two_roots().root_at(1), "fallback");
}

#[test]
fn read_resolves_to_the_earlier_root() {
    let dir = two_roots();
    assert_eq!(dir.resolve_for_read(&vec![true, true]), Some(0));
    assert_eq!(dir.resolve_for_read(&vec![false, true]), Some(1));
    assert_eq!(dir.resolve_for_read(&vec![false, false]), None);
}

#[test]
fn write_updates_in_place_or_lands_in_the_first_root() {
    let dir = two_roots();
    // already present in the second root: updated in place there
    assert_eq!(dir.write_target(&vec![false, true]), 1);
    // present in both: the higher-priority root wins
    assert_eq!(dir.write_target(&vec![true, true]), 0);
    // brand new: lands in the first root
    assert_eq!(dir.write_target(&vec![false, false]), 0);
}

#[test]
fn merged_listing_classifies_and_deduplicates() {
    let dir = two_roots();
    let raw = vec![
        Some(vec![
            entry("a\\x.bitmap", false),
            entry("a\\sub", true),
            entry("a\\notes.txt", false),
        ]),
        Some(vec![entry("a\\x.bitmap", false), entry("a\\z.weapon", false)]),
    ];
    let items = dir.files_in_path_merged(&raw).unwrap();
    assert_eq!(items.len(), 3);
    assert!(items[0].is_tag());
    assert_eq!(items[0].path_str(), "a\\x");
    assert_eq!(items[0].tag_group(), Some(TagGroup::Bitmap));
    assert!(items[1].is_directory());
    assert_eq!(items[1].path_str(), "a\\sub");
    assert_eq!(items[1].tag_group(), None);
    assert!(items[2].is_tag());
    assert_eq!(items[2].path_str(), "a\\z");
    assert_eq!(items[2].tag_group(), Some(TagGroup::Weapon));
}

#[test]
fn listing_is_none_only_when_no_root_has_the_directory() {
    let dir = two_roots();
    assert!(dir.files_in_path_merged(&vec![None, None]).is_none());
    let empty = dir.files_in_path_merged(&vec![None, Some(vec![])]).unwrap();
    assert!(empty.is_empty());
}

#[test]
fn decode_maps_structural_failure_to_corrupted_tag() {
    let path = TagPath::from_path("a\\x.bitmap").unwrap();
    let tag = TagInstance::from_struct(&SimpleBitmap { width: 1, height: 2, pixel_count: 3 })
        .unwrap();
    let mut file = tag.to_tag_file().unwrap();

    let ok = VirtualTagDirectory::decode_opened_tag(&path, &file).unwrap();
    assert_eq!(ok.group(), TagGroup::Bitmap);

    let mut corrupted_payload = file.clone();
    corrupted_payload[0x42] ^= 0xFF;
    let r = VirtualTagDirectory::decode_opened_tag(&path, &corrupted_payload);
    assert!(matches!(r, Err(Error::ChecksumMismatch)));

    file[0x3C] ^= 0xFF;
    let r = VirtualTagDirectory::decode_opened_tag(&path, &file);
    assert!(matches!(r, Err(Error::CorruptedTag(_))));
}
