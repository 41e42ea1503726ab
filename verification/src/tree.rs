//! The abstract tag tree and its traversal.
//!
//! A tag tree is a hierarchical store of tags: point lookups and writes by
//! tag path, and directory listings by path prefix. Every implementation
//! carries two abstractions in its contracts — a map from (path, group) to
//! erased tag values, and a listing function from directory prefixes to
//! item sequences — so that decorators and traversal can be reasoned about
//! against any store.

use vstd::prelude::*;
use vstd::string::StringExecFns;
use crate::error::{Error, RinghopperResult};
use crate::filter::{spec_glob_match, TagFilter};
use crate::primitive::{TagGroup, TagPath};
use crate::store::{spec_path_key, spec_tag_view, TagMap};
use crate::tag::TagInstance;

verus! {

/// Denotes an item type for identifying a [`TagTreeItem`].
#[derive(Copy, Clone, Debug, PartialEq, Eq, Structural)]
pub enum TagTreeItemType {
    /// The item represents a tag or tag file.
    Tag,
    /// The item represents a directory that can be further traversed.
    Directory,
}

/// The abstract value of a tree item: its kind, its path text and its
/// group, if any.
pub type TagTreeItemView = (TagTreeItemType, Seq<char>, Option<TagGroup>);

/// One entry of a directory listing: a tag (with its group) or a
/// subdirectory (without one). An item owns its path text; it is a cursor
/// into whatever tree produced it, not a handle on storage.
#[derive(Debug)]
pub struct TagTreeItem {
    item_type: TagTreeItemType,
    path: String,
    tag_group: Option<TagGroup>,
}

/// The abstract value of a tree item.
pub open spec fn spec_item_view(it: TagTreeItem) -> TagTreeItemView {
    (it.spec_item_type(), it.spec_path(), it.spec_tag_group())
}

impl TagTreeItem {
    /// The kind of the item.
    pub closed spec fn spec_item_type(&self) -> TagTreeItemType {
        self.item_type
    }

    /// The path text of the item, without extension for a tag.
    pub closed spec fn spec_path(&self) -> Seq<char> {
        self.path@
    }

    /// The group of the item, present exactly for tags.
    pub closed spec fn spec_tag_group(&self) -> Option<TagGroup> {
        self.tag_group
    }

    /// A tag item always has a group; a directory item never does.
    pub open spec fn wf(&self) -> bool {
        (self.spec_item_type() is Tag) <==> (self.spec_tag_group() is Some)
    }

    /// Instantiates a new item. A group must be given exactly when the
    /// item is a tag.
    pub fn new(item_type: TagTreeItemType, path: String, tag_group: Option<TagGroup>) -> (r:
        TagTreeItem)
        requires
            (item_type is Tag) <==> (tag_group is Some),
        ensures
            r.spec_item_type() == item_type,
            r.spec_path() == path@,
            r.spec_tag_group() == tag_group,
            r.wf(),
    {
        TagTreeItem { item_type, path, tag_group }
    }

    /// Get the type of item this is.
    pub fn item_type(&self) -> (r: TagTreeItemType)
        ensures
            r == self.spec_item_type(),
    {
        self.item_type
    }

    /// Return `true` if this is a tag.
    pub fn is_tag(&self) -> (r: bool)
        ensures
            r == (self.spec_item_type() is Tag),
    {
        self.item_type == TagTreeItemType::Tag
    }

    /// Return `true` if this is a directory.
    pub fn is_directory(&self) -> (r: bool)
        ensures
            r == (self.spec_item_type() is Directory),
    {
        self.item_type == TagTreeItemType::Directory
    }

    /// Get the tag group if this is a tag; `None` if this is not a tag.
    pub fn tag_group(&self) -> (r: Option<TagGroup>)
        ensures
            r == self.spec_tag_group(),
    {
        self.tag_group
    }

    /// Get the path as a string, excluding the extension for a tag.
    pub fn path_str(&self) -> (r: &str)
        ensures
            r@ == self.spec_path(),
    {
        self.path.as_str()
    }

    /// Get this as a tag path, if it is a tag with a usable path: the path
    /// text is normalized on the way. Returns `None` for a directory, for
    /// a tag with an empty path and for a tag without a group.
    pub fn tag_path(&self) -> (r: Option<TagPath>)
        ensures
            match r {
                Some(p) => {
                    &&& self.spec_item_type() is Tag
                    &&& self.spec_tag_group() matches Some(g) && p.spec_group() == g
                    &&& p.spec_path() == crate::primitive::spec_normalized(self.spec_path())
                    &&& p.wf()
                },
                None => self.spec_item_type() is Directory || self.spec_tag_group() is None
                    || self.spec_path().len() == 0,
            },
            r is Some <==> (self.spec_item_type() is Tag && self.spec_tag_group() is Some
                && self.spec_path().len() > 0),
    {
        if self.is_directory() {
            return None;
        }
        let group = match self.tag_group() {
            Some(g) => g,
            None => {
                return None;
            },
        };
        match TagPath::new(self.path.as_str(), group) {
            Ok(p) => Some(p),
            Err(_) => None,
        }
    }

    /// Get the inner items of this directory from a tree. Returns `None`
    /// if this is not a directory or the directory does not exist.
    pub fn files<T: TagTree>(&self, tree: &T) -> (r: Option<Vec<TagTreeItem>>)
        requires
            tree.inv(),
        ensures
            r is Some <==> (self.spec_item_type() is Directory && tree.spec_listing(
                self.spec_path(),
            ) is Some),
            r matches Some(v) ==> v@.map_values(|it: TagTreeItem| spec_item_view(it))
                == tree.spec_listing(self.spec_path()).unwrap(),
    {
        if self.item_type == TagTreeItemType::Directory {
            tree.files_in_path(self.path.as_str())
        } else {
            None
        }
    }
}

impl Clone for TagTreeItem {
    /// Cloning preserves the item's abstract value.
    fn clone(&self) -> (r: Self)
        ensures
            spec_item_view(r) == spec_item_view(*self),
    {
        TagTreeItem {
            item_type: self.item_type,
            path: self.path.clone(),
            tag_group: self.tag_group,
        }
    }
}

/// Tag tree implementation for traversing and loading/saving tags.
pub trait TagTree: Sized {
    /// The invariant every store value maintains.
    spec fn inv(&self) -> bool;

    /// The logical point-lookup store: the erased tag value at each
    /// (path, group) key.
    spec fn spec_tags(&self) -> Map<(Seq<char>, TagGroup), (TagGroup, u16, Seq<u8>)>;

    /// The listing of one directory prefix; `None` when it does not exist.
    spec fn spec_listing(&self, dir: Seq<char>) -> Option<Seq<TagTreeItemView>>;

    /// Get a copy of the tag in the tag tree if it exists; the store's
    /// contents are unchanged by reading, though a caching store may
    /// reorganize itself.
    fn open_tag_copy(&mut self, path: &TagPath) -> (r: RinghopperResult<TagInstance>)
        requires
            old(self).inv(),
        ensures
            final(self).inv(),
            final(self).spec_tags() == old(self).spec_tags(),
            forall|d: Seq<char>| final(self).spec_listing(d) == old(self).spec_listing(d),
            r is Ok <==> old(self).spec_tags().contains_key(spec_path_key(*path)),
            r matches Ok(t) ==> spec_tag_view(t) == old(self).spec_tags()[spec_path_key(*path)],
            r matches Err(e) ==> e matches Error::TagNotFound(_),
    ;

    /// Open the tag, getting the store's own current instance of it. For
    /// trees that implement caching this is the cached instance.
    fn open_tag_shared(&mut self, path: &TagPath) -> (r: RinghopperResult<TagInstance>)
        requires
            old(self).inv(),
        ensures
            final(self).inv(),
            final(self).spec_tags() == old(self).spec_tags(),
            forall|d: Seq<char>| final(self).spec_listing(d) == old(self).spec_listing(d),
            r is Ok <==> old(self).spec_tags().contains_key(spec_path_key(*path)),
            r matches Ok(t) ==> spec_tag_view(t) == old(self).spec_tags()[spec_path_key(*path)],
            r matches Err(e) ==> e matches Error::TagNotFound(_),
    ;

    /// Get all files in the path; `None` if the path does not exist.
    fn files_in_path(&self, path: &str) -> (r: Option<Vec<TagTreeItem>>)
        requires
            self.inv(),
        ensures
            r is Some <==> self.spec_listing(path@) is Some,
            r matches Some(v) ==> v@.map_values(|it: TagTreeItem| spec_item_view(it))
                == self.spec_listing(path@).unwrap(),
    ;

    /// Write the tag into the tag tree: on success the store holds exactly
    /// the written value at the written path and everything else is kept.
    fn write_tag(&mut self, path: &TagPath, tag: &TagInstance) -> (r: RinghopperResult<()>)
        requires
            old(self).inv(),
        ensures
            final(self).inv(),
            r is Ok ==> final(self).spec_tags() == old(self).spec_tags().insert(
                spec_path_key(*path),
                spec_tag_view(*tag),
            ),
            r is Err ==> final(self).spec_tags() == old(self).spec_tags(),
    ;
}

/// An in-memory tag tree: tags live in a verified mapping, and directory
/// listings are an explicit snapshot provided through [`MemoryTagTree::set_listing`].
/// It is the memory-backed store that the traversal and caching layers are
/// exercised against; writing a tag updates the point lookups, while the
/// listing snapshot stays as given.
#[derive(Debug)]
pub struct MemoryTagTree {
    tags: TagMap,
    listings: Vec<(String, Vec<TagTreeItem>)>,
}

/// First-match lookup of a directory listing in a listing snapshot.
pub open spec fn spec_lookup_listing(ls: Seq<(String, Vec<TagTreeItem>)>, d: Seq<char>) -> Option<
    Seq<TagTreeItemView>,
>
    decreases ls.len(),
{
    if ls.len() == 0 {
        None
    } else if ls[0].0@ == d {
        Some(ls[0].1@.map_values(|it: TagTreeItem| spec_item_view(it)))
    } else {
        spec_lookup_listing(ls.skip(1), d)
    }
}

impl MemoryTagTree {
    /// An empty tree: no tags, no listings.
    pub fn new() -> (r: MemoryTagTree)
        ensures
            r.inv(),
            r.spec_tags() == Map::<(Seq<char>, TagGroup), (TagGroup, u16, Seq<u8>)>::empty(),
            forall|d: Seq<char>| r.spec_listing(d) is None,
    {
        MemoryTagTree { tags: TagMap::new(), listings: Vec::new() }
    }

    /// Provide the listing of one directory, overriding any earlier
    /// listing given for it.
    pub fn set_listing(&mut self, dir: &str, items: Vec<TagTreeItem>)
        requires
            old(self).inv(),
        ensures
            final(self).inv(),
            final(self).spec_tags() == old(self).spec_tags(),
            forall|d: Seq<char>|
                final(self).spec_listing(d) == (if d == dir@ {
                    Some(items@.map_values(|it: TagTreeItem| spec_item_view(it)))
                } else {
                    old(self).spec_listing(d)
                }),
    {
        let entry = (String::from_str(dir), items);
        self.listings.insert(0, entry);
        proof {
            assert(self.listings@.skip(1) =~= old(self).listings@);
        }
    }
}

impl TagTree for MemoryTagTree {
    closed spec fn inv(&self) -> bool {
        self.tags.wf()
    }

    closed spec fn spec_tags(&self) -> Map<(Seq<char>, TagGroup), (TagGroup, u16, Seq<u8>)> {
        self.tags@
    }

    closed spec fn spec_listing(&self, dir: Seq<char>) -> Option<Seq<TagTreeItemView>> {
        spec_lookup_listing(self.listings@, dir)
    }

    fn open_tag_copy(&mut self, path: &TagPath) -> (r: RinghopperResult<TagInstance>) {
        match self.tags.get(path) {
            Some(t) => Ok(t.clone()),
            None => Err(Error::TagNotFound(path.clone())),
        }
    }

    fn open_tag_shared(&mut self, path: &TagPath) -> (r: RinghopperResult<TagInstance>) {
        match self.tags.get(path) {
            Some(t) => Ok(t.clone()),
            None => Err(Error::TagNotFound(path.clone())),
        }
    }

    fn files_in_path(&self, path: &str) -> (r: Option<Vec<TagTreeItem>>) {
        let n = self.listings.len();
        let mut i: usize = 0;
        proof {
            assert(self.listings@.skip(0) =~= self.listings@);
        }
        while i < n
            invariant
                0 <= i <= n,
                n == self.listings@.len(),
                spec_lookup_listing(self.listings@, path@) == spec_lookup_listing(
                    self.listings@.skip(i as int),
                    path@,
                ),
            decreases n - i,
        {
            proof {
                assert(self.listings@.skip(i as int).skip(1) =~= self.listings@.skip(i as int + 1));
                assert(self.listings@.skip(i as int)[0] == self.listings@[i as int]);
            }
            if crate::primitive::str_eq(self.listings[i].0.as_str(), path) {
                return Some(clone_items(&self.listings[i].1));
            }
            i = i + 1;
        }
        None
    }

    /// Writing into the in-memory store always succeeds.
    fn write_tag(&mut self, path: &TagPath, tag: &TagInstance) -> (r: RinghopperResult<()>)
        ensures
            r is Ok,
    {
        self.tags.insert(path.clone(), tag.clone());
        Ok(())
    }
}

/// An item is listed in a tree if some directory listing of the tree
/// holds it.
pub open spec fn spec_item_listed<T: TagTree>(tree: T, v: TagTreeItemView) -> bool {
    exists|d: Seq<char>| (#[trigger] tree.spec_listing(d)) matches Some(l) && l.contains(v)
}

/// Every entry queued in a traversal stack is listed in the tree.
pub open spec fn spec_stack_listed<T: TagTree>(tree: T, stack: Seq<Vec<TagTreeItem>>) -> bool {
    forall|li: int, ii: int|
        0 <= li < stack.len() && 0 <= ii < stack[li]@.len() ==> spec_item_listed(
            tree,
            spec_item_view(#[trigger] stack[li]@[ii]),
        )
}

/// The measure of pending work in an abstract traversal stack: every
/// queued entry, plus one unit for each level.
pub open spec fn spec_views_measure(stack: Seq<Seq<TagTreeItemView>>) -> nat
    decreases stack.len(),
{
    if stack.len() == 0 {
        0
    } else {
        spec_views_measure(stack.drop_last()) + stack.last().len() + 1
    }
}

/// Whether a tag with the given normalized path and group passes an
/// optional filter; no filter passes everything.
pub open spec fn spec_filter_passes_key(
    filter: Option<TagFilter>,
    path: Seq<char>,
    g: TagGroup,
) -> bool {
    match filter {
        None => true,
        Some(f) => match f.spec_group() {
            Some(fg) => g == fg && spec_glob_match(f.spec_filter(), path),
            None => spec_glob_match(f.spec_filter(), path + "."@ + g.spec_extension()),
        },
    }
}

/// One pull of the traversal, in specification: from a pending stack and
/// an expansion budget, the (normalized path, group) key of the next
/// yielded tag — or `None` when the pending work runs out — together with
/// the pending stack and budget after the pull. The traversal takes the
/// front entry of the top queue; an exhausted queue is dropped, a
/// directory is expanded into a new queue (spending budget) and never
/// yields, a tag entry without a group or with an empty path is skipped,
/// and a tag that fails the filter is skipped.
pub open spec fn spec_traverse_next<T: TagTree>(
    tree: T,
    stack: Seq<Seq<TagTreeItemView>>,
    filter: Option<TagFilter>,
    budget: nat,
) -> (Option<(Seq<char>, TagGroup)>, Seq<Seq<TagTreeItemView>>, nat)
    decreases budget, spec_views_measure(stack),
    when true
    via spec_traverse_next_decreases::<T>
{
    if stack.len() == 0 {
        (None, stack, budget)
    } else if stack.last().len() == 0 {
        spec_traverse_next(tree, stack.drop_last(), filter, budget)
    } else {
        let level = stack.last();
        let first = level[0];
        let rest = stack.drop_last().push(level.skip(1));
        if first.0 is Directory {
            if budget > 0 {
                let expanded = match tree.spec_listing(first.1) {
                    Some(l) => rest.push(l),
                    None => rest,
                };
                spec_traverse_next(tree, expanded, filter, (budget - 1) as nat)
            } else {
                spec_traverse_next(tree, rest, filter, budget)
            }
        } else {
            if first.2 is Some && first.1.len() > 0 {
                let p = crate::primitive::spec_normalized(first.1);
                let g = first.2.unwrap();
                if spec_filter_passes_key(filter, p, g) {
                    (Some((p, g)), rest, budget)
                } else {
                    spec_traverse_next(tree, rest, filter, budget)
                }
            } else {
                spec_traverse_next(tree, rest, filter, budget)
            }
        }
    }
}

#[via_fn]
proof fn spec_traverse_next_decreases<T: TagTree>(
    tree: T,
    stack: Seq<Seq<TagTreeItemView>>,
    filter: Option<TagFilter>,
    budget: nat,
) {
    if stack.len() > 0 && stack.last().len() > 0 {
        let level = stack.last();
        let rest = stack.drop_last().push(level.skip(1));
        assert(rest.drop_last() =~= stack.drop_last());
        assert(rest.last() =~= level.skip(1));
        assert(spec_views_measure(rest) == spec_views_measure(stack.drop_last()) + level.skip(
            1,
        ).len() + 1);
        assert(spec_views_measure(stack) == spec_views_measure(stack.drop_last()) + level.len()
            + 1);
    }
}

/// A yielding pull strictly shrinks the lexicographic (budget, pending)
/// measure of the traversal state.
pub proof fn lemma_traverse_next_yield_decreases<T: TagTree>(
    tree: T,
    stack: Seq<Seq<TagTreeItemView>>,
    filter: Option<TagFilter>,
    budget: nat,
)
    ensures
        ({
            let s = spec_traverse_next(tree, stack, filter, budget);
            s.0 is Some ==> (s.2 < budget || (s.2 == budget && spec_views_measure(s.1)
                < spec_views_measure(stack)))
        }),
    decreases budget, spec_views_measure(stack),
{
    if stack.len() == 0 {
    } else if stack.last().len() == 0 {
        lemma_traverse_next_yield_decreases(tree, stack.drop_last(), filter, budget);
        assert(spec_views_measure(stack) == spec_views_measure(stack.drop_last()) + 1);
    } else {
        let level = stack.last();
        let first = level[0];
        let rest = stack.drop_last().push(level.skip(1));
        assert(rest.drop_last() =~= stack.drop_last());
        assert(rest.last() =~= level.skip(1));
        assert(spec_views_measure(rest) == spec_views_measure(stack.drop_last()) + level.skip(
            1,
        ).len() + 1);
        assert(spec_views_measure(stack) == spec_views_measure(stack.drop_last()) + level.len()
            + 1);
        if first.0 is Directory {
            if budget > 0 {
                match tree.spec_listing(first.1) {
                    Some(l) => {
                        lemma_traverse_next_yield_decreases(
                            tree,
                            rest.push(l),
                            filter,
                            (budget - 1) as nat,
                        );
                    },
                    None => {
                        lemma_traverse_next_yield_decreases(tree, rest, filter, (budget - 1) as nat);
                    },
                }
            } else {
                lemma_traverse_next_yield_decreases(tree, rest, filter, budget);
            }
        } else {
            if first.2 is Some && first.1.len() > 0 && spec_filter_passes_key(
                filter,
                crate::primitive::spec_normalized(first.1),
                first.2.unwrap(),
            ) {
            } else {
                lemma_traverse_next_yield_decreases(tree, rest, filter, budget);
            }
        }
    }
}

/// The whole run of a traversal, in specification: the sequence of
/// (normalized path, group) keys that repeated pulls yield, in order,
/// until the pending work runs out.
pub open spec fn spec_traversal_yields<T: TagTree>(
    tree: T,
    stack: Seq<Seq<TagTreeItemView>>,
    filter: Option<TagFilter>,
    budget: nat,
) -> Seq<(Seq<char>, TagGroup)>
    decreases budget, spec_views_measure(stack),
    when true
    via spec_traversal_yields_decreases::<T>
{
    let s = spec_traverse_next(tree, stack, filter, budget);
    match s.0 {
        None => Seq::empty(),
        Some(k) => seq![k] + spec_traversal_yields(tree, s.1, filter, s.2),
    }
}

#[via_fn]
proof fn spec_traversal_yields_decreases<T: TagTree>(
    tree: T,
    stack: Seq<Seq<TagTreeItemView>>,
    filter: Option<TagFilter>,
    budget: nat,
) {
    lemma_traverse_next_yield_decreases(tree, stack, filter, budget);
}

/// A tag entry value is queued somewhere in a pending stack.
pub open spec fn spec_tag_queued(stack: Seq<Seq<TagTreeItemView>>, v: TagTreeItemView) -> bool {
    exists|li: int, ii: int|
        0 <= li < stack.len() && 0 <= ii < stack[li].len() && stack[li][ii] == v
}

/// One pull cannot pass over a queued matching tag: it yields some tag,
/// and the queued one is either the yield itself or still queued after.
proof fn lemma_next_finds<T: TagTree>(
    tree: T,
    stack: Seq<Seq<TagTreeItemView>>,
    filter: Option<TagFilter>,
    budget: nat,
    v: TagTreeItemView,
)
    requires
        spec_tag_queued(stack, v),
        v.0 is Tag,
        v.2 is Some,
        v.1.len() > 0,
        spec_filter_passes_key(filter, crate::primitive::spec_normalized(v.1), v.2.unwrap()),
    ensures
        ({
            let s = spec_traverse_next(tree, stack, filter, budget);
            s.0 is Some && (s.0 == Some(
                (crate::primitive::spec_normalized(v.1), v.2.unwrap()),
            ) || spec_tag_queued(s.1, v))
        }),
    decreases budget, spec_views_measure(stack),
{
    let s = spec_traverse_next(tree, stack, filter, budget);
    let (li, ii) = choose|li: int, ii: int|
        0 <= li < stack.len() && 0 <= ii < stack[li].len() && stack[li][ii] == v;
    if stack.last().len() == 0 {
        assert(li < stack.len() - 1);
        assert(stack.drop_last()[li][ii] == v);
        assert(spec_tag_queued(stack.drop_last(), v));
        lemma_next_finds(tree, stack.drop_last(), filter, budget, v);
    } else {
        let level = stack.last();
        let first = level[0];
        let rest = stack.drop_last().push(level.skip(1));
        assert(rest.drop_last() =~= stack.drop_last());
        assert(rest.last() =~= level.skip(1));
        assert(spec_views_measure(rest) == spec_views_measure(stack.drop_last()) + level.skip(
            1,
        ).len() + 1);
        assert(spec_views_measure(stack) == spec_views_measure(stack.drop_last()) + level.len()
            + 1);
        if li == stack.len() - 1 && ii == 0 {
            assert(first == v);
            assert(s.0 == Some((crate::primitive::spec_normalized(v.1), v.2.unwrap())));
        } else {
            if li < stack.len() - 1 {
                assert(rest[li][ii] == v);
            } else {
                assert(rest[rest.len() - 1][ii - 1] == level.skip(1)[ii - 1]);
                assert(level.skip(1)[ii - 1] == level[ii]);
                assert(rest[rest.len() - 1][ii - 1] == v);
            }
            assert(spec_tag_queued(rest, v));
            if first.0 is Directory {
                if budget > 0 {
                    match tree.spec_listing(first.1) {
                        Some(l) => {
                            let expanded = rest.push(l);
                            let (lj, jj) = choose|lj: int, jj: int|
                                0 <= lj < rest.len() && 0 <= jj < rest[lj].len() && rest[lj][jj]
                                    == v;
                            assert(expanded[lj][jj] == v);
                            assert(spec_tag_queued(expanded, v));
                            lemma_next_finds(tree, expanded, filter, (budget - 1) as nat, v);
                        },
                        None => {
                            lemma_next_finds(tree, rest, filter, (budget - 1) as nat, v);
                        },
                    }
                } else {
                    lemma_next_finds(tree, rest, filter, budget, v);
                }
            } else {
                if first.2 is Some && first.1.len() > 0 && spec_filter_passes_key(
                    filter,
                    crate::primitive::spec_normalized(first.1),
                    first.2.unwrap(),
                ) {
                } else {
                    lemma_next_finds(tree, rest, filter, budget, v);
                }
            }
        }
    }
}

/// Totality of the traversal: a matching tag entry pending anywhere in
/// the traversal is yielded by the run. Together with the initial state
/// of [`iterate_through_all_tags`] this says every matching tag of the
/// root listing is yielded; a tag nested deeper is covered the moment its
/// directory is expanded, when its listing joins the pending work.
pub proof fn lemma_traversal_totality<T: TagTree>(
    tree: T,
    stack: Seq<Seq<TagTreeItemView>>,
    filter: Option<TagFilter>,
    budget: nat,
    v: TagTreeItemView,
)
    requires
        spec_tag_queued(stack, v),
        v.0 is Tag,
        v.2 is Some,
        v.1.len() > 0,
        spec_filter_passes_key(filter, crate::primitive::spec_normalized(v.1), v.2.unwrap()),
    ensures
        spec_traversal_yields(tree, stack, filter, budget).contains(
            (crate::primitive::spec_normalized(v.1), v.2.unwrap()),
        ),
    decreases budget, spec_views_measure(stack),
{
    lemma_next_finds(tree, stack, filter, budget, v);
    lemma_traverse_next_yield_decreases(tree, stack, filter, budget);
    let s = spec_traverse_next(tree, stack, filter, budget);
    let k = (crate::primitive::spec_normalized(v.1), v.2.unwrap());
    let run = spec_traversal_yields(tree, stack, filter, budget);
    if s.0 == Some(k) {
        assert(run[0] == k);
    } else {
        lemma_traversal_totality(tree, s.1, filter, s.2, v);
        let tail = spec_traversal_yields(tree, s.1, filter, s.2);
        let i = choose|i: int| 0 <= i < tail.len() && tail[i] == k;
        assert(run[i + 1] == k);
    }
}

/// A pull-based depth-first traversal over a tag tree: a stack of
/// per-directory pending-entry queues plus an optional filter. Each
/// directory is expanded once, as encountered; entries within a directory
/// are processed in listing order, and a directory that no longer exists
/// contributes nothing. A tag entry with no usable path is skipped. The
/// traversal carries a directory-expansion budget so that it provably
/// finishes; the budget starts at the largest machine integer and is never
/// reached by a finite tree.
#[derive(Debug)]
pub struct TagTreeTagIterator {
    stack: Vec<Vec<TagTreeItem>>,
    filter: Option<TagFilter>,
    expansions: usize,
}

/// The abstract values of every level of a traversal stack, in order.
pub open spec fn spec_stack_views(stack: Seq<Vec<TagTreeItem>>) -> Seq<Seq<TagTreeItemView>> {
    stack.map_values(|l: Vec<TagTreeItem>| l@.map_values(|it: TagTreeItem| spec_item_view(it)))
}

/// The pending work held in a traversal stack: every queued entry, plus
/// one unit for each level.
pub open spec fn spec_stack_measure(stack: Seq<Vec<TagTreeItem>>) -> nat
    decreases stack.len(),
{
    if stack.len() == 0 {
        0
    } else {
        spec_stack_measure(stack.drop_last()) + stack.last()@.len() + 1
    }
}

impl TagTreeTagIterator {
    /// The filter the traversal applies, if any.
    pub closed spec fn spec_filter(&self) -> Option<TagFilter> {
        self.filter
    }

    /// The pending per-directory queues, outermost first, as abstract
    /// item values.
    pub closed spec fn spec_pending(&self) -> Seq<Seq<TagTreeItemView>> {
        spec_stack_views(self.stack@)
    }

    /// The measure of the pending work: zero exactly when the traversal
    /// is exhausted.
    pub closed spec fn spec_pending_measure(&self) -> nat {
        spec_stack_measure(self.stack@)
    }

    /// The remaining directory-expansion budget.
    pub closed spec fn spec_expansions(&self) -> nat {
        self.expansions as nat
    }

    /// Every entry the traversal still has queued is listed in the tree.
    pub closed spec fn spec_listed<T: TagTree>(&self, tree: T) -> bool {
        spec_stack_listed(tree, self.stack@)
    }

    /// Produce the next matching tag path, or `None` when the traversal is
    /// finished. The call behaves exactly as one pull of
    /// [`spec_traverse_next`] on the pending work: the yielded path's
    /// identity, the remaining pending work and the remaining budget are
    /// all pinned by that specification. In particular every yielded path
    /// is normalized, passes the filter, and names a tag item held in some
    /// directory listing of the tree; an exhausted traversal yields `None`
    /// unchanged; `None` comes only with the pending work fully drained;
    /// and each yield strictly shrinks the (budget, pending) measure.
    pub fn next<T: TagTree>(&mut self, tree: &T) -> (r: Option<TagPath>)
        requires
            tree.inv(),
            old(self).spec_listed(*tree),
        ensures
            final(self).spec_filter() == old(self).spec_filter(),
            final(self).spec_listed(*tree),
            ({
                let step = spec_traverse_next(
                    *tree,
                    old(self).spec_pending(),
                    old(self).spec_filter(),
                    old(self).spec_expansions(),
                );
                &&& (match r {
                    Some(p) => step.0 == Some((p.spec_path(), p.spec_group())),
                    None => step.0 is None,
                })
                &&& final(self).spec_pending() == step.1
                &&& final(self).spec_expansions() == step.2
            }),
            r matches Some(p) ==> p.wf() && (final(self).spec_filter() matches Some(f)
                ==> f.spec_passes(p)),
            r matches Some(p) ==> exists|raw: Seq<char>|
                spec_item_listed(
                    *tree,
                    (TagTreeItemType::Tag, raw, Some(p.spec_group())),
                ) && p.spec_path() == crate::primitive::spec_normalized(raw),
            old(self).spec_pending_measure() == 0 ==> r is None && final(self).spec_pending()
                == old(self).spec_pending() && final(self).spec_expansions() == old(self).spec_expansions(),
            r is None ==> final(self).spec_pending_measure() == 0,
            r is Some ==> final(self).spec_expansions() < old(self).spec_expansions() || (final(self).spec_expansions() == old(self).spec_expansions() && final(self).spec_pending_measure() < old(self).spec_pending_measure()),
    {
        let ghost flt = old(self).spec_filter();
        let ghost orig_step = spec_traverse_next(
            *tree,
            old(self).spec_pending(),
            flt,
            old(self).spec_expansions(),
        );
        loop
            invariant
                tree.inv(),
                self.filter == old(self).filter,
                flt == old(self).spec_filter(),
                orig_step == spec_traverse_next(
                    *tree,
                    old(self).spec_pending(),
                    flt,
                    old(self).spec_expansions(),
                ),
                spec_stack_listed(*tree, self.stack@),
                self.expansions < old(self).expansions || (self.expansions == old(self).expansions && spec_stack_measure(self.stack@) <= spec_stack_measure(
                    old(self).stack@,
                )),
                spec_stack_measure(old(self).stack@) == 0 ==> self.stack@ == old(self).stack@
                    && self.expansions == old(self).expansions,
                orig_step == spec_traverse_next(
                    *tree,
                    spec_stack_views(self.stack@),
                    flt,
                    self.expansions as nat,
                ),
            decreases self.expansions, spec_stack_measure(self.stack@),
        {
            let ghost start_stack = self.stack@;
            let ghost start_exp = self.expansions;
            let ghost views_start = spec_stack_views(start_stack);
            proof {
                if start_stack.len() == 0 {
                    assert(spec_stack_measure(start_stack) == 0);
                } else {
                    assert(spec_stack_measure(start_stack) >= 1);
                }
                assert(start_exp < old(self).expansions || (start_exp == old(self).expansions
                    && spec_stack_measure(start_stack) <= spec_stack_measure(old(self).stack@)));
                assert(views_start.len() == start_stack.len());
            }
            let mut level = match self.stack.pop() {
                Some(n) => n,
                None => {
                    proof {
                        assert(spec_stack_measure(self.stack@) == 0);
                        assert(views_start.len() == 0);
                        assert(orig_step == (
                            None::<(Seq<char>, TagGroup)>,
                            views_start,
                            start_exp as nat,
                        ));
                    }
                    return None;
                },
            };
            proof {
                assert(spec_stack_measure(start_stack) == spec_stack_measure(
                    start_stack.drop_last(),
                ) + start_stack.last()@.len() + 1);
                assert(views_start.last() =~= start_stack.last()@.map_values(
                    |it: TagTreeItem| spec_item_view(it),
                ));
                assert(views_start.last().len() == level@.len());
                assert forall|li: int, ii: int|
                    0 <= li < self.stack@.len() && 0 <= ii
                        < self.stack@[li]@.len() implies spec_item_listed(
                    *tree,
                    spec_item_view(#[trigger] self.stack@[li]@[ii]),
                ) by {
                    assert(self.stack@[li]@[ii] == start_stack[li]@[ii]);
                }
            }
            if level.len() == 0 {
                proof {
                    assert(spec_stack_views(self.stack@) =~= views_start.drop_last());
                }
                continue ;
            }
            let first = level.remove(0);
            self.stack.push(level);
            let ghost first_view = spec_item_view(first);
            let ghost rest_views = views_start.drop_last().push(views_start.last().skip(1));
            proof {
                assert(self.stack@.drop_last() =~= start_stack.drop_last());
                assert(spec_stack_measure(self.stack@) == spec_stack_measure(
                    start_stack.drop_last(),
                ) + (start_stack.last()@.len() - 1) + 1);
                assert(first == start_stack.last()@[0]);
                assert(first_view == views_start.last()[0]);
                assert(spec_item_listed(*tree, first_view));
                assert(self.stack@.last()@ =~= start_stack.last()@.skip(1));
                assert forall|li: int|
                    0 <= li < self.stack@.len() implies #[trigger] spec_stack_views(
                    self.stack@,
                )[li] =~= rest_views[li] by {
                    if li < self.stack@.len() - 1 {
                        assert(self.stack@[li] == start_stack[li]);
                        assert(rest_views[li] == views_start[li]);
                    } else {
                        let lv = self.stack@.last()@;
                        assert forall|k: int|
                            0 <= k < lv.len() implies lv.map_values(
                            |it: TagTreeItem| spec_item_view(it),
                        )[k] == views_start.last().skip(1)[k] by {
                            assert(lv[k] == start_stack.last()@[k + 1]);
                            assert(views_start.last()[k + 1] == start_stack.last()@.map_values(
                                |it: TagTreeItem| spec_item_view(it),
                            )[k + 1]);
                        }
                        assert(lv.map_values(|it: TagTreeItem| spec_item_view(it))
                            =~= views_start.last().skip(1));
                    }
                }
                assert(spec_stack_views(self.stack@) =~= rest_views);
                assert forall|li: int, ii: int|
                    0 <= li < self.stack@.len() && 0 <= ii
                        < self.stack@[li]@.len() implies spec_item_listed(
                    *tree,
                    spec_item_view(#[trigger] self.stack@[li]@[ii]),
                ) by {
                    if li < self.stack@.len() - 1 {
                        assert(self.stack@[li]@[ii] == start_stack[li]@[ii]);
                    } else {
                        assert(self.stack@[li]@[ii] == start_stack.last()@[ii + 1]);
                    }
                }
            }
            match first.item_type() {
                TagTreeItemType::Directory => {
                    proof {
                        assert(first_view.0 is Directory);
                    }
                    if self.expansions > 0 {
                        self.expansions = self.expansions - 1;
                        let ghost mid_stack = self.stack@;
                        match first.files(tree) {
                            Some(n) => {
                                proof {
                                    let ghost l = tree.spec_listing(first.spec_path()).unwrap();
                                    assert forall|ii: int|
                                        0 <= ii < n@.len() implies spec_item_listed(
                                        *tree,
                                        spec_item_view(#[trigger] n@[ii]),
                                    ) by {
                                        assert(n@.map_values(
                                            |it: TagTreeItem| spec_item_view(it),
                                        )[ii] == l[ii]);
                                        assert(l.contains(spec_item_view(n@[ii])));
                                    }
                                }
                                self.stack.push(n);
                                proof {
                                    assert(spec_stack_views(self.stack@) =~= rest_views.push(
                                        tree.spec_listing(first_view.1).unwrap(),
                                    ));
                                    assert forall|li: int, ii: int|
                                        0 <= li < self.stack@.len() && 0 <= ii
                                            < self.stack@[li]@.len() implies spec_item_listed(
                                        *tree,
                                        spec_item_view(#[trigger] self.stack@[li]@[ii]),
                                    ) by {
                                        if li < self.stack@.len() - 1 {
                                            assert(self.stack@[li]@[ii] == mid_stack[li]@[ii]);
                                        } else {
                                            assert(self.stack@[li] == self.stack@.last());
                                        }
                                    }
                                }
                            },
                            None => {
                                proof {
                                    assert(tree.spec_listing(first_view.1) is None);
                                }
                            },
                        }
                    }
                    continue ;
                },
                TagTreeItemType::Tag => {
                    proof {
                        assert(first_view.0 is Tag);
                    }
                    let found = match first.tag_path() {
                        Some(p) => p,
                        None => {
                            proof {
                                assert(!(first_view.2 is Some && first_view.1.len() > 0));
                            }
                            continue ;
                        },
                    };
                    proof {
                        assert(first_view.2 is Some && first_view.1.len() > 0);
                        assert(found.spec_path() == crate::primitive::spec_normalized(
                            first_view.1,
                        ));
                        assert(Some(found.spec_group()) == first_view.2);
                        assert(spec_filter_passes_key(
                            flt,
                            found.spec_path(),
                            found.spec_group(),
                        ) == (match flt {
                            None => true,
                            Some(f) => f.spec_passes(found),
                        }));
                    }
                    match &self.filter {
                        Some(n) => {
                            if !n.passes(&found) {
                                proof {
                                    assert(!spec_filter_passes_key(
                                        flt,
                                        found.spec_path(),
                                        found.spec_group(),
                                    ));
                                }
                                continue ;
                            }
                        },
                        None => {},
                    }
                    proof {
                        assert(spec_item_view(first) == (
                            TagTreeItemType::Tag,
                            first.spec_path(),
                            Some(found.spec_group()),
                        ));
                        assert(spec_filter_passes_key(flt, found.spec_path(), found.spec_group()));
                        assert(orig_step == (
                            Some((found.spec_path(), found.spec_group())),
                            rest_views,
                            start_exp as nat,
                        ));
                    }
                    return Some(found);
                },
            }
        }
    }
}

/// Begin a traversal of all tags of a tree, through an optional filter.
/// The traversal starts with one pending queue holding exactly the
/// listing of the tree's root, or with nothing pending when the root has
/// no listing, and with the full expansion budget.
pub fn iterate_through_all_tags<T: TagTree>(what: &T, filter: Option<TagFilter>) -> (r:
    TagTreeTagIterator)
    requires
        what.inv(),
    ensures
        r.spec_filter() == filter,
        r.spec_listed(*what),
        r.spec_expansions() == usize::MAX,
        match what.spec_listing(""@) {
            Some(l) => r.spec_pending() == seq![l],
            None => r.spec_pending() == Seq::<Seq<TagTreeItemView>>::empty(),
        },
{
    let mut iterator = TagTreeTagIterator { stack: Vec::new(), filter, expansions: usize::MAX };
    match what.files_in_path("") {
        Some(n) => {
            proof {
                let ghost l = what.spec_listing(""@).unwrap();
                assert forall|ii: int| 0 <= ii < n@.len() implies spec_item_listed(
                    *what,
                    spec_item_view(#[trigger] n@[ii]),
                ) by {
                    assert(n@.map_values(|it: TagTreeItem| spec_item_view(it))[ii] == l[ii]);
                    assert(l.contains(spec_item_view(n@[ii])));
                }
            }
            iterator.stack.push(n);
            proof {
                assert forall|li: int, ii: int|
                    0 <= li < iterator.stack@.len() && 0 <= ii
                        < iterator.stack@[li]@.len() implies spec_item_listed(
                    *what,
                    spec_item_view(#[trigger] iterator.stack@[li]@[ii]),
                ) by {
                    assert(iterator.stack@[li] == iterator.stack@[0]);
                }
                assert(iterator.spec_pending() =~= seq![
                    what.spec_listing(""@).unwrap(),
                ]);
            }
        },
        None => {
            proof {
                assert(iterator.spec_pending() =~= Seq::<Seq<TagTreeItemView>>::empty());
            }
        },
    }
    iterator
}

/// Clone a listing, preserving each item's abstract value.
fn clone_items(items: &Vec<TagTreeItem>) -> (r: Vec<TagTreeItem>)
    ensures
        r@.map_values(|it: TagTreeItem| spec_item_view(it)) == items@.map_values(
            |it: TagTreeItem| spec_item_view(it),
        ),
{
    let n = items.len();
    let mut out: Vec<TagTreeItem> = Vec::new();
    let mut i: usize = 0;
    while i < n
        invariant
            0 <= i <= n,
            n == items@.len(),
            out@.len() == i,
            forall|j: int|
                0 <= j < i ==> spec_item_view(#[trigger] out@[j]) == spec_item_view(items@[j]),
        decreases n - i,
    {
        out.push(items[i].clone());
        i = i + 1;
    }
    proof {
        assert(out@.map_values(|it: TagTreeItem| spec_item_view(it)) =~= items@.map_values(
            |it: TagTreeItem| spec_item_view(it),
        ));
    }
    out
}

} // verus!
