//! Wildcard filter semantics and tag path normalization.

use ringhopper::error::Error;
use ringhopper::filter::TagFilter;
use ringhopper::primitive::{TagGroup, TagPath};

#[test]
fn bitmap_pattern_matches_by_extension() {
    let all_bitmaps = TagFilter::new("*.bitmap", None);
    assert!(all_bitmaps.passes(&TagPath::from_path("something.bitmap").unwrap()));
    assert!(!all_bitmaps.passes(&TagPath::from_path("something.weapon").unwrap()));
}

#[test]
fn star_scoped_to_group_matches_any_path_of_that_group() {
    let all_bitmaps = TagFilter::new("*", Some(TagGroup::Bitmap));
    assert!(all_bitmaps.passes(&TagPath::from_path("something.bitmap").unwrap()));
    assert!(all_bitmaps.passes(&TagPath::from_path("levels\\a10\\sky.bitmap").unwrap()));
    assert!(!all_bitmaps.passes(&TagPath::from_path("something.weapon").unwrap()));
}

#[test]
fn prefix_pattern_needs_matching_prefix() {
    let some_bitmaps = TagFilter::new("some*", Some(TagGroup::Bitmap));
    assert!(some_bitmaps.passes(&TagPath::from_path("something.bitmap").unwrap()));
    assert!(!some_bitmaps.passes(&TagPath::from_path("nothing.bitmap").unwrap()));
    assert!(!some_bitmaps.passes(&TagPath::from_path("something.weapon").unwrap()));
}

#[test]
fn question_marks_match_exact_segment_lengths() {
    let campaign = TagFilter::new("levels\\???\\???", Some(TagGroup::Scenario));
    assert!(campaign.passes(&TagPath::from_path("levels\\a10\\a10.scenario").unwrap()));
    assert!(!campaign.passes(&TagPath::from_path("levels\\test\\wizard\\wizard.scenario").unwrap()));
}

#[test]
fn pattern_separators_are_normalized() {
    let filter = TagFilter::new("levels/a10/*", Some(TagGroup::Scenario));
    assert!(filter.passes(&TagPath::from_path("levels\\a10\\a10.scenario").unwrap()));
}

#[test]
fn is_filter_detects_wildcards() {
    assert!(TagFilter::is_filter("*.bitmap"));
    assert!(TagFilter::is_filter("levels\\???\\a10"));
    assert!(!TagFilter::is_filter("levels\\a10\\a10.scenario"));
}

#[test]
fn tag_path_normalizes_case_and_separators() {
    let p = TagPath::new("Levels/A10/Sky", TagGroup::Bitmap).unwrap();
    assert_eq!(p.path(), "levels\\a10\\sky");
    assert_eq!(p.group(), TagGroup::Bitmap);
    assert_eq!(p.to_internal_path(), "levels\\a10\\sky.bitmap");
}

#[test]
fn from_path_splits_extension() {
    let p = TagPath::from_path("weapons\\pistol\\pistol.weapon").unwrap();
    assert_eq!(p.path(), "weapons\\pistol\\pistol");
    assert_eq!(p.group(), TagGroup::Weapon);
}

#[test]
fn from_path_rejects_bad_inputs() {
    assert!(matches!(TagPath::from_path("noextension"), Err(Error::InvalidTagPath)));
    assert!(matches!(TagPath::from_path("file.unknownext"), Err(Error::InvalidTagPath)));
    assert!(matches!(TagPath::from_path(".bitmap"), Err(Error::InvalidTagPath)));
}

#[test]
fn empty_path_is_rejected() {
    assert!(matches!(TagPath::new("", TagGroup::Bitmap), Err(Error::InvalidTagPath)));
}

#[test]
fn path_identity_is_the_normalized_pair() {
    let a = TagPath::new("Levels/A10", TagGroup::Scenario).unwrap();
    let b = TagPath::new("levels\\a10", TagGroup::Scenario).unwrap();
    let c = TagPath::new("levels\\a10", TagGroup::Bitmap).unwrap();
    assert!(a == b);
    assert!(a != c);
}
