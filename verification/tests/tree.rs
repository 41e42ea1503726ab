//! Traversal over a memory tree, and the caching decorator's contract:
//! cache coherence, write strategies, commit and eviction.

use ringhopper::cache::{CachingTagTree, CachingTagTreeWriteStrategy};
use ringhopper::error::Error;
use ringhopper::filter::TagFilter;
use ringhopper::primitive::{TagGroup, TagPath};
use ringhopper::schema::SimpleBitmap;
use ringhopper::tag::TagInstance;
use ringhopper::tree::{
    iterate_through_all_tags, MemoryTagTree, TagTree, TagTreeItem, TagTreeItemType,
};

fn tag_item(path: &str, group: TagGroup) -> TagTreeItem {
    TagTreeItem::new(TagTreeItemType::Tag, String::from(path), Some(group))
}

fn dir_item(path: &str) -> TagTreeItem {
    TagTreeItem::new(TagTreeItemType::Directory, String::from(path), None)
}

fn bitmap(width: u16) -> TagInstance {
    TagInstance::from_struct(&SimpleBitmap { width, height: 1, pixel_count: 1 }).unwrap()
}

/// A tree of three tags across nested directories, plus an empty
/// directory and one whose listing is missing.
fn nested_tree() -> MemoryTagTree {
    let mut tree = MemoryTagTree::new();
    tree.set_listing(
        "",
        vec![
            tag_item("ex", TagGroup::Bitmap),
            dir_item("levels"),
            dir_item("empty"),
            dir_item("ghost"),
        ],
    );
    tree.set_listing(
        "levels",
        vec![tag_item("levels\\b30", TagGroup::Scenario), dir_item("levels\\a10")],
    );
    tree.set_listing("levels\\a10", vec![tag_item("levels\\a10\\a10", TagGroup::Scenario)]);
    tree.set_listing("empty", vec![]);
    tree
}

fn collect_all(tree: &MemoryTagTree, filter: Option<TagFilter>) -> Vec<String> {
    let mut iter = iterate_through_all_tags(tree, filter);
    let mut found: Vec<String> = Vec::new();
    while let Some(path) = iter.next(tree) {
        found.push(path.to_internal_path());
    }
    found.sort();
    found
}

#[test]
fn traversal_yields_each_tag_exactly_once() {
    let tree = nested_tree();
    let found = collect_all(&tree, None);
    assert_eq!(
        found,
        vec![
            String::from("ex.bitmap"),
            String::from("levels\\a10\\a10.scenario"),
            String::from("levels\\b30.scenario"),
        ]
    );
}

#[test]
fn traversal_applies_the_filter() {
    let tree = nested_tree();
    let found = collect_all(&tree, Some(TagFilter::new("*", Some(TagGroup::Scenario))));
    assert_eq!(
        found,
        vec![String::from("levels\\a10\\a10.scenario"), String::from("levels\\b30.scenario")]
    );
}

#[test]
fn traversal_of_empty_tree_yields_nothing() {
    let tree = MemoryTagTree::new();
    assert_eq!(collect_all(&tree, None).len(), 0);
}

#[test]
fn memory_tree_open_and_write() {
    let mut tree = MemoryTagTree::new();
    let path = TagPath::from_path("ui\\cursor.bitmap").unwrap();
    assert!(matches!(tree.open_tag_copy(&path), Err(Error::TagNotFound(_))));
    tree.write_tag(&path, &bitmap(7)).unwrap();
    let got = tree.open_tag_copy(&path).unwrap();
    let back: SimpleBitmap = got.get_ref().unwrap();
    assert_eq!(back.width, 7);
}

#[test]
fn shared_open_is_served_from_the_cache() {
    // Under the manual strategy the wrapped tree never learns of the
    // write, so a successful open proves the cache answered.
    let path = TagPath::from_path("ui\\cursor.bitmap").unwrap();
    let mut cache = CachingTagTree::new(MemoryTagTree::new(), CachingTagTreeWriteStrategy::Manual);
    cache.write_tag(&path, &bitmap(3)).unwrap();
    let first = cache.open_tag_shared(&path).unwrap();
    let second = cache.open_tag_shared(&path).unwrap();
    let a: SimpleBitmap = first.get_ref().unwrap();
    let b: SimpleBitmap = second.get_ref().unwrap();
    assert_eq!(a, b);
    assert_eq!(a.width, 3);
}

#[test]
fn open_populates_the_cache_from_the_wrapped_tree() {
    let path = TagPath::from_path("ui\\cursor.bitmap").unwrap();
    let mut tree = MemoryTagTree::new();
    tree.write_tag(&path, &bitmap(5)).unwrap();
    let mut cache = CachingTagTree::new(tree, CachingTagTreeWriteStrategy::Manual);
    assert!(cache.get(&path).is_none());
    cache.open_tag_shared(&path).unwrap();
    let cached = cache.get(&path).unwrap();
    let back: SimpleBitmap = cached.get_ref().unwrap();
    assert_eq!(back.width, 5);
}

#[test]
fn copied_open_never_shares_with_the_cache() {
    let path = TagPath::from_path("ui\\cursor.bitmap").unwrap();
    let mut cache = CachingTagTree::new(MemoryTagTree::new(), CachingTagTreeWriteStrategy::Manual);
    cache.write_tag(&path, &bitmap(3)).unwrap();
    let mut private = cache.open_tag_copy(&path).unwrap();
    private.store(&SimpleBitmap { width: 9, height: 9, pixel_count: 9 }).unwrap();
    let cached: SimpleBitmap = cache.get(&path).unwrap().get_ref().unwrap();
    assert_eq!(cached.width, 3);
}

#[test]
fn instant_write_reaches_the_wrapped_tree_without_commit() {
    let path = TagPath::from_path("ui\\cursor.bitmap").unwrap();
    let mut cache = CachingTagTree::new(MemoryTagTree::new(), CachingTagTreeWriteStrategy::Instant);
    cache.write_tag(&path, &bitmap(4)).unwrap();
    let mut inner = cache.into_inner();
    let got = inner.open_tag_copy(&path).unwrap();
    let back: SimpleBitmap = got.get_ref().unwrap();
    assert_eq!(back.width, 4);
}

#[test]
fn manual_write_stays_out_of_the_wrapped_tree_until_commit() {
    let path = TagPath::from_path("ui\\cursor.bitmap").unwrap();
    let mut cache = CachingTagTree::new(MemoryTagTree::new(), CachingTagTreeWriteStrategy::Manual);
    cache.write_tag(&path, &bitmap(4)).unwrap();
    let mut inner = cache.into_inner();
    assert!(matches!(inner.open_tag_copy(&path), Err(Error::TagNotFound(_))));
}

#[test]
fn manual_write_is_visible_after_commit() {
    let path = TagPath::from_path("ui\\cursor.bitmap").unwrap();
    let mut cache = CachingTagTree::new(MemoryTagTree::new(), CachingTagTreeWriteStrategy::Manual);
    cache.write_tag(&path, &bitmap(4)).unwrap();
    cache.commit(&path).unwrap();
    let mut inner = cache.into_inner();
    let got = inner.open_tag_copy(&path).unwrap();
    let back: SimpleBitmap = got.get_ref().unwrap();
    assert_eq!(back.width, 4);
}

#[test]
fn commit_of_uncached_path_is_not_found() {
    let path = TagPath::from_path("ui\\cursor.bitmap").unwrap();
    let mut cache = CachingTagTree::new(MemoryTagTree::new(), CachingTagTreeWriteStrategy::Manual);
    assert!(matches!(cache.commit(&path), Err(Error::TagNotFound(_))));
}

#[test]
fn commit_all_flushes_every_cached_tag() {
    let p1 = TagPath::from_path("ui\\cursor.bitmap").unwrap();
    let p2 = TagPath::from_path("ui\\arrow.bitmap").unwrap();
    let mut cache = CachingTagTree::new(MemoryTagTree::new(), CachingTagTreeWriteStrategy::Manual);
    cache.write_tag(&p1, &bitmap(1)).unwrap();
    cache.write_tag(&p2, &bitmap(2)).unwrap();
    let failures = cache.commit_all();
    assert!(failures.is_empty());
    let mut inner = cache.into_inner();
    assert!(inner.open_tag_copy(&p1).is_ok());
    assert!(inner.open_tag_copy(&p2).is_ok());
}

#[test]
fn inner_mut_reaches_the_wrapped_tree() {
    let path = TagPath::from_path("ui\\cursor.bitmap").unwrap();
    let mut cache = CachingTagTree::new(MemoryTagTree::new(), CachingTagTreeWriteStrategy::Manual);
    cache.inner_mut().write_tag(&path, &bitmap(8)).unwrap();
    // the cache is still empty, so the open is served by the wrapped tree
    assert!(cache.get(&path).is_none());
    let got = cache.open_tag_shared(&path).unwrap();
    let back: SimpleBitmap = got.get_ref().unwrap();
    assert_eq!(back.width, 8);
}

#[test]
fn evict_removes_and_returns_the_cached_tag() {
    let path = TagPath::from_path("ui\\cursor.bitmap").unwrap();
    let mut cache = CachingTagTree::new(MemoryTagTree::new(), CachingTagTreeWriteStrategy::Manual);
    cache.write_tag(&path, &bitmap(6)).unwrap();
    let evicted = cache.evict(&path).unwrap();
    let back: SimpleBitmap = evicted.get_ref().unwrap();
    assert_eq!(back.width, 6);
    assert!(cache.get(&path).is_none());
    assert!(cache.evict(&path).is_none());
}

#[test]
fn listings_delegate_straight_through_the_cache() {
    let tree = nested_tree();
    let cache = CachingTagTree::new(tree, CachingTagTreeWriteStrategy::Manual);
    let items = cache.files_in_path("levels").unwrap();
    assert_eq!(items.len(), 2);
    assert!(cache.files_in_path("nonexistent").is_none());
}
