//! The overlay logic of a multi-directory backing store.
//!
//! A virtual tag directory holds an ordered list of backing roots; the
//! earlier a root, the higher its priority for both reads and the default
//! write target. The filesystem itself is outside this crate: every
//! function here is the pure decision core — which root resolves a read,
//! where a write lands, how a read file decodes, and how the raw listings
//! of all roots merge into one directory listing — taking the facts read
//! from the backing store as plain values.

use vstd::prelude::*;
use vstd::string::StrSliceExecFns;
use vstd::string::StringExecFns;
use crate::error::{Error, RinghopperResult};
use crate::primitive::{spec_last_dot, TagGroup, TagPath};
use crate::tag::{
    spec_gates_pass, spec_payload, spec_stored_group_code, spec_stored_version, ParseStrictness,
    spec_file_parses, spec_header_structurally_valid, TagFile, TagInstance,
};
use crate::tree::{spec_item_view, TagTreeItem, TagTreeItemType, TagTreeItemView};

verus! {

/// One raw entry of a physical directory listing, as the backing store
/// reports it: the root-relative path text and whether it is a
/// subdirectory.
#[derive(Debug)]
pub struct DirEntry {
    /// The entry's path, relative to its backing root.
    pub name: String,
    /// Whether the entry is itself a directory.
    pub is_dir: bool,
}

/// How one raw entry classifies: a subdirectory item, a tag item named by
/// a recognized extension, or nothing for a file whose extension is not a
/// known group (such an entry is silently dropped, not an error).
pub open spec fn spec_classify(name: Seq<char>, is_dir: bool) -> Option<TagTreeItemView> {
    if is_dir {
        Some((TagTreeItemType::Directory, name, None))
    } else {
        let dot = spec_last_dot(name);
        if dot < 0 {
            None
        } else {
            match TagGroup::spec_from_extension(name.subrange(dot + 1, name.len() as int)) {
                None => None,
                Some(g) => Some((TagTreeItemType::Tag, name.take(dot), Some(g))),
            }
        }
    }
}

/// The classification of a whole raw listing, in order, dropped entries
/// omitted.
pub open spec fn spec_classified(entries: Seq<DirEntry>) -> Seq<TagTreeItemView>
    decreases entries.len(),
{
    if entries.len() == 0 {
        Seq::empty()
    } else {
        spec_classified(entries.drop_last()) + (match spec_classify(
            entries.last().name@,
            entries.last().is_dir,
        ) {
            None => Seq::empty(),
            Some(x) => seq![x],
        })
    }
}

/// The concatenation of the classifications of every root's listing, in
/// root priority order; a root without the directory contributes nothing.
pub open spec fn spec_merge_input(raw: Seq<Option<Vec<DirEntry>>>) -> Seq<TagTreeItemView>
    decreases raw.len(),
{
    if raw.len() == 0 {
        Seq::empty()
    } else {
        spec_merge_input(raw.drop_last()) + (match raw.last() {
            None => Seq::empty(),
            Some(v) => spec_classified(v@),
        })
    }
}

/// Deduplication keeping first occurrences: an item identical in kind,
/// group and path to an earlier one collapses into it.
pub open spec fn spec_dedup(items: Seq<TagTreeItemView>) -> Seq<TagTreeItemView>
    decreases items.len(),
{
    if items.len() == 0 {
        Seq::empty()
    } else {
        spec_dedup(items.drop_last()) + (if items.drop_last().contains(items.last()) {
            Seq::empty()
        } else {
            seq![items.last()]
        })
    }
}

/// Deduplication keeps membership: an item occurs in the deduplicated
/// sequence exactly when it occurs in the input.
pub proof fn lemma_dedup_membership(items: Seq<TagTreeItemView>, v: TagTreeItemView)
    ensures
        spec_dedup(items).contains(v) == items.contains(v),
    decreases items.len(),
{
    if items.len() > 0 {
        let dl = items.drop_last();
        lemma_dedup_membership(dl, v);
        let tail: Seq<TagTreeItemView> = if dl.contains(items.last()) {
            Seq::empty()
        } else {
            seq![items.last()]
        };
        assert(spec_dedup(items) == spec_dedup(dl) + tail);
        if items.contains(v) {
            let j = choose|j: int| 0 <= j < items.len() && items[j] == v;
            if j < items.len() - 1 {
                assert(dl[j] == v);
                let i = choose|i: int| 0 <= i < spec_dedup(dl).len() && spec_dedup(dl)[i] == v;
                assert((spec_dedup(dl) + tail)[i] == v);
            } else {
                if dl.contains(v) {
                    let i = choose|i: int| 0 <= i < spec_dedup(dl).len() && spec_dedup(dl)[i] == v;
                    assert((spec_dedup(dl) + tail)[i] == v);
                } else {
                    assert((spec_dedup(dl) + tail)[spec_dedup(dl).len() as int] == v);
                }
            }
        } else {
            assert forall|j: int| 0 <= j < dl.len() implies #[trigger] dl[j] != v by {
                assert(items[j] == dl[j]);
            }
            assert(!dl.contains(v));
            assert(items.last() != v);
            assert forall|i: int|
                0 <= i < spec_dedup(items).len() implies #[trigger] spec_dedup(items)[i] != v by {
                if i < spec_dedup(dl).len() {
                    assert(spec_dedup(items)[i] == spec_dedup(dl)[i]);
                } else {
                    assert(spec_dedup(items)[i] == tail[i - spec_dedup(dl).len()]);
                }
            }
            assert(!spec_dedup(items).contains(v));
        }
    }
}

/// Deduplication leaves no duplicates: the merged listing holds each
/// (kind, group, path) identity at most once.
pub proof fn lemma_dedup_no_duplicates(items: Seq<TagTreeItemView>)
    ensures
        forall|a: int, b: int|
            0 <= a < b < spec_dedup(items).len() ==> spec_dedup(items)[a] != spec_dedup(items)[b],
    decreases items.len(),
{
    if items.len() > 0 {
        let dl = items.drop_last();
        lemma_dedup_no_duplicates(dl);
        if !dl.contains(items.last()) {
            lemma_dedup_membership(dl, items.last());
            assert(spec_dedup(items) == spec_dedup(dl) + seq![items.last()]);
            assert forall|a: int, b: int|
                0 <= a < b < spec_dedup(items).len() implies spec_dedup(items)[a] != spec_dedup(
                items,
            )[b] by {
                if b < spec_dedup(dl).len() {
                    assert(spec_dedup(items)[a] == spec_dedup(dl)[a]);
                    assert(spec_dedup(items)[b] == spec_dedup(dl)[b]);
                } else {
                    assert(spec_dedup(items)[b] == items.last());
                    assert(spec_dedup(items)[a] == spec_dedup(dl)[a]);
                    if spec_dedup(items)[a] == items.last() {
                        assert(spec_dedup(dl).contains(items.last()));
                    }
                }
            }
        } else {
            assert(spec_dedup(items) == spec_dedup(dl) + Seq::<TagTreeItemView>::empty());
            assert(spec_dedup(items) =~= spec_dedup(dl));
        }
    }
}

/// Classify one raw entry.
fn classify_entry(entry: &DirEntry) -> (r: Option<TagTreeItem>)
    ensures
        r matches Some(it) ==> spec_classify(entry.name@, entry.is_dir) == Some(
            spec_item_view(it),
        ),
        r is Some <==> spec_classify(entry.name@, entry.is_dir) is Some,
{
    if entry.is_dir {
        return Some(
            TagTreeItem::new(TagTreeItemType::Directory, entry.name.clone(), None),
        );
    }
    let len = entry.name.as_str().unicode_len();
    let dot = match crate::primitive::last_dot(entry.name.as_str()) {
        Some(d) => d,
        None => {
            return None;
        },
    };
    let extension = entry.name.as_str().substring_char(dot + 1, len);
    let group = match TagGroup::from_str(extension) {
        Some(g) => g,
        None => {
            return None;
        },
    };
    let stem = entry.name.as_str().substring_char(0, dot);
    proof {
        assert(entry.name@.take(dot as int) =~= entry.name@.subrange(0, dot as int));
    }
    Some(TagTreeItem::new(TagTreeItemType::Tag, String::from_str(stem), Some(group)))
}

/// Whether an item with the same kind, path and group is already listed.
fn contains_item(items: &Vec<TagTreeItem>, v: &TagTreeItem) -> (r: bool)
    ensures
        r == items@.map_values(|it: TagTreeItem| spec_item_view(it)).contains(spec_item_view(*v)),
{
    let n = items.len();
    let mut i: usize = 0;
    while i < n
        invariant
            0 <= i <= n,
            n == items@.len(),
            forall|j: int| 0 <= j < i ==> spec_item_view(#[trigger] items@[j]) != spec_item_view(*v),
        decreases n - i,
    {
        let a = &items[i];
        let kind_eq = a.item_type() == v.item_type();
        let group_eq = match (a.tag_group(), v.tag_group()) {
            (None, None) => true,
            (Some(x), Some(y)) => x == y,
            _ => false,
        };
        let path_eq = crate::primitive::str_eq(a.path_str(), v.path_str());
        if kind_eq && group_eq && path_eq {
            assert(items@.map_values(|it: TagTreeItem| spec_item_view(it))[i as int]
                == spec_item_view(*v));
            return true;
        }
        i = i + 1;
    }
    proof {
        let mapped = items@.map_values(|it: TagTreeItem| spec_item_view(it));
        assert forall|j: int| 0 <= j < mapped.len() implies #[trigger] mapped[j] != spec_item_view(
            *v,
        ) by {
            assert(mapped[j] == spec_item_view(items@[j]));
        }
        assert(!mapped.contains(spec_item_view(*v)));
    }
    false
}

/// A concrete tag tree backed by an ordered list of physical directory
/// roots, acting as a priority overlay: index 0 is checked first for reads
/// and is the default write target. The filesystem facts — which files
/// exist, what a directory physically lists, the bytes of a file — are
/// passed in as plain values by the shell that performs the actual
/// input and output.
#[derive(Debug)]
pub struct VirtualTagDirectory {
    directories: Vec<String>,
}

impl VirtualTagDirectory {
    /// The backing root paths, in priority order.
    pub closed spec fn spec_directories(&self) -> Seq<Seq<char>> {
        self.directories@.map_values(|s: String| s@)
    }

    /// The number of backing roots; always at least one.
    pub open spec fn spec_root_count(&self) -> nat {
        self.spec_directories().len()
    }

    /// Initialize a virtual tags directory from root paths, given for each
    /// root whether it exists as a directory on the backing store. Earlier
    /// directories have higher priority. Fails with an invalid-directory
    /// kind if no root is given or some given root is not a directory.
    pub fn new(directories: Vec<String>, is_directory: &Vec<bool>) -> (r: RinghopperResult<
        VirtualTagDirectory>)
        requires
            is_directory@.len() == directories@.len(),
        ensures
            r is Ok <==> (directories@.len() > 0 && forall|i: int|
                0 <= i < is_directory@.len() ==> is_directory@[i]),
            r matches Ok(v) ==> v.spec_directories() == directories@.map_values(|s: String| s@),
            r matches Err(e) ==> e matches Error::InvalidTagsDirectory,
    {
        if directories.len() == 0 {
            return Err(Error::InvalidTagsDirectory);
        }
        let n = directories.len();
        let mut i: usize = 0;
        while i < n
            invariant
                0 <= i <= n,
                n == is_directory@.len(),
                forall|j: int| 0 <= j < i ==> is_directory@[j],
            decreases n - i,
        {
            if !is_directory[i] {
                return Err(Error::InvalidTagsDirectory);
            }
            i = i + 1;
        }
        Ok(VirtualTagDirectory { directories })
    }

    /// The backing root path at an index.
    pub fn root_at(&self, index: usize) -> (r: &str)
        requires
            index < self.spec_root_count(),
        ensures
            r@ == self.spec_directories()[index as int],
    {
        self.directories[index].as_str()
    }

    /// Resolve a tag for reading: the highest-priority root whose physical
    /// file for the tag exists, where `exists_in_root[i]` states whether
    /// root `i` holds it. `None` if no root has it.
    pub fn resolve_for_read(&self, exists_in_root: &Vec<bool>) -> (r: Option<usize>)
        requires
            exists_in_root@.len() == self.spec_root_count(),
        ensures
            match r {
                Some(i) => i < self.spec_root_count() && exists_in_root@[i as int] && forall|
                    j: int,
                |
                    0 <= j < i ==> !exists_in_root@[j],
                None => forall|j: int| 0 <= j < exists_in_root@.len() ==> !exists_in_root@[j],
            },
    {
        let n = exists_in_root.len();
        let mut i: usize = 0;
        while i < n
            invariant
                0 <= i <= n,
                n == exists_in_root@.len(),
                n == self.spec_root_count(),
                forall|j: int| 0 <= j < i ==> !exists_in_root@[j],
            decreases n - i,
        {
            if exists_in_root[i] {
                return Some(i);
            }
            i = i + 1;
        }
        None
    }

    /// The root a write lands in: in place in the root that already holds
    /// the tag, or the highest-priority root for a brand-new tag.
    pub fn write_target(&self, exists_in_root: &Vec<bool>) -> (r: usize)
        requires
            exists_in_root@.len() == self.spec_root_count(),
            self.spec_root_count() > 0,
        ensures
            r < self.spec_root_count(),
            (exists|j: int| 0 <= j < exists_in_root@.len() && exists_in_root@[j])
                ==> exists_in_root@[r as int] && forall|j: int| 0 <= j < r ==> !exists_in_root@[j],
            (forall|j: int| 0 <= j < exists_in_root@.len() ==> !exists_in_root@[j]) ==> r == 0,
    {
        match self.resolve_for_read(exists_in_root) {
            Some(i) => i,
            None => 0,
        }
    }

    /// Decode the bytes read for a tag that resolved, distinguishing a tag
    /// that exists but is unreadable from one that is missing: a
    /// structural parse failure becomes a corrupted-tag kind carrying the
    /// path. Parsing is strict.
    pub fn decode_opened_tag(path: &TagPath, file: &[u8]) -> (r: RinghopperResult<TagInstance>)
        ensures
            r is Ok <==> spec_gates_pass(file@, ParseStrictness::Strict),
            r matches Ok(t) ==> {
                &&& Some(t.spec_group()) == TagGroup::spec_from_fourcc(
                    spec_stored_group_code(file@),
                )
                &&& t.spec_version() == spec_stored_version(file@)
                &&& t.spec_payload() == spec_payload(file@)
            },
            r matches Err(e) ==> if file@.len() < 0x40 {
                e matches Error::OutOfBounds
            } else if !spec_file_parses(file@) || !spec_header_structurally_valid(file@) {
                e matches Error::CorruptedTag(_)
            } else {
                e matches Error::ChecksumMismatch
            },
    {
        match TagFile::read_any_tag_from_file_buffer(file, ParseStrictness::Strict) {
            Ok(t) => Ok(t),
            Err(e) => {
                match e {
                    Error::TagParseFailure => Err(Error::CorruptedTag(path.clone())),
                    other => Err(other),
                }
            },
        }
    }

    /// Merge the raw listings of every root into one directory listing:
    /// classify each entry, drop entries with unrecognized extensions,
    /// keep root priority order, and collapse duplicates identical in
    /// kind, group and path. `None` exactly when no root has the
    /// directory; an empty listing when roots have it but it is empty.
    pub fn files_in_path_merged(&self, raw: &Vec<Option<Vec<DirEntry>>>) -> (r: Option<Vec<
        TagTreeItem>>)
        requires
            raw@.len() == self.spec_root_count(),
        ensures
            r is Some <==> exists|i: int| 0 <= i < raw@.len() && raw@[i] is Some,
            r matches Some(v) ==> v@.map_values(|it: TagTreeItem| spec_item_view(it))
                == spec_dedup(spec_merge_input(raw@)),
    {
        let mut result: Vec<TagTreeItem> = Vec::new();
        let mut success = false;
        let n = raw.len();
        let mut i: usize = 0;
        proof {
            assert(raw@.take(0) =~= Seq::<Option<Vec<DirEntry>>>::empty());
        }
        while i < n
            invariant
                0 <= i <= n,
                n == raw@.len(),
                success == exists|j: int| 0 <= j < i && raw@[j] is Some,
                result@.map_values(|it: TagTreeItem| spec_item_view(it)) == spec_dedup(
                    spec_merge_input(raw@.take(i as int)),
                ),
            decreases n - i,
        {
            let ghost done = spec_merge_input(raw@.take(i as int));
            proof {
                assert(raw@.take(i as int + 1).drop_last() =~= raw@.take(i as int));
                assert(raw@.take(i as int + 1).last() == raw@[i as int]);
            }
            match &raw[i] {
                None => {},
                Some(entries) => {
                    success = true;
                    merge_one_listing(&mut result, entries, Ghost(done));
                },
            };
            i = i + 1;
        }
        proof {
            assert(raw@.take(n as int) =~= raw@);
        }
        if !success {
            return None;
        }
        Some(result)
    }
}

/// Classify and fold one root's raw listing into the accumulated result,
/// collapsing items already listed.
fn merge_one_listing(result: &mut Vec<TagTreeItem>, entries: &Vec<DirEntry>, done: Ghost<
    Seq<TagTreeItemView>>)
    requires
        old(result)@.map_values(|it: TagTreeItem| spec_item_view(it)) == spec_dedup(done@),
    ensures
        final(result)@.map_values(|it: TagTreeItem| spec_item_view(it)) == spec_dedup(
            done@ + spec_classified(entries@),
        ),
{
    let m = entries.len();
    let mut k: usize = 0;
    proof {
        assert(entries@.take(0) =~= Seq::<DirEntry>::empty());
        assert(done@ + spec_classified(entries@.take(0)) =~= done@);
    }
    while k < m
        invariant
            0 <= k <= m,
            m == entries@.len(),
            result@.map_values(|it: TagTreeItem| spec_item_view(it)) == spec_dedup(
                done@ + spec_classified(entries@.take(k as int)),
            ),
        decreases m - k,
    {
        let ghost processed = done@ + spec_classified(entries@.take(k as int));
        proof {
            assert(entries@.take(k as int + 1).drop_last() =~= entries@.take(k as int));
            assert(entries@.take(k as int + 1).last() == entries@[k as int]);
        }
        match classify_entry(&entries[k]) {
            None => {
                proof {
                    assert(done@ + spec_classified(entries@.take(k as int + 1)) =~= processed);
                }
            },
            Some(item) => {
                proof {
                    assert(done@ + spec_classified(entries@.take(k as int + 1)) =~= processed.push(
                        spec_item_view(item),
                    ));
                    assert(processed.push(spec_item_view(item)).drop_last() =~= processed);
                    lemma_dedup_membership(processed, spec_item_view(item));
                }
                if !contains_item(result, &item) {
                    let ghost before = result@;
                    result.push(item);
                    proof {
                        assert(result@.map_values(|it: TagTreeItem| spec_item_view(it))
                            =~= before.map_values(|it: TagTreeItem| spec_item_view(it)).push(
                            spec_item_view(item),
                        ));
                        assert(spec_dedup(processed.push(spec_item_view(item))) =~= spec_dedup(
                            processed,
                        ).push(spec_item_view(item)));
                    }
                } else {
                    proof {
                        assert(spec_dedup(processed.push(spec_item_view(item))) =~= spec_dedup(
                            processed,
                        ));
                    }
                }
            },
        };
        k = k + 1;
    }
    proof {
        assert(entries@.take(m as int) =~= entries@);
    }
}

} // verus!
