//! A caching decorator over any tag tree.
//!
//! The cache is a mapping from tag paths to the store's current instance of
//! each opened or written tag. Reads are served from the cache when
//! possible; writes follow the configured strategy — forwarded to the
//! wrapped tree at once, or held in the cache until committed. Directory
//! listings always delegate straight through: the cache shadows point
//! lookups only.

use vstd::prelude::*;
use crate::error::{Error, RinghopperResult};
use crate::primitive::{TagGroup, TagPath};
use crate::store::{spec_path_key, spec_tag_view, TagMap};
use crate::tag::TagInstance;
use crate::tree::{TagTree, TagTreeItem, TagTreeItemView};

verus! {

/// When a write through the cache reaches the wrapped tree.
#[derive(Copy, Clone, Debug, PartialEq, Eq, Structural)]
pub enum CachingTagTreeWriteStrategy {
    /// Writing a tag instantly commits it to the wrapped tree.
    Instant,
    /// Writing a tag only updates the cache; nothing reaches the wrapped
    /// tree until explicitly committed.
    Manual,
}

/// The set of paths named by a sequence of (path, error) failures.
pub open spec fn spec_error_paths(errs: Seq<(TagPath, Error)>) -> Set<(Seq<char>, TagGroup)> {
    Set::new(
        |k: (Seq<char>, TagGroup)|
            exists|j: int| 0 <= j < errs.len() && spec_path_key(#[trigger] errs[j].0) == k,
    )
}

/// A tag tree wrapped with an in-memory cache of opened and written tags,
/// and a write strategy.
#[derive(Debug)]
pub struct CachingTagTree<T: TagTree> {
    inner: T,
    tag_cache: TagMap,
    strategy: CachingTagTreeWriteStrategy,
}

impl<T: TagTree> CachingTagTree<T> {
    /// The wrapped tree.
    pub closed spec fn spec_inner(&self) -> T {
        self.inner
    }

    /// The cache contents.
    pub closed spec fn spec_cache(&self) -> Map<(Seq<char>, TagGroup), (TagGroup, u16, Seq<u8>)> {
        self.tag_cache@
    }

    /// The write strategy.
    pub closed spec fn spec_strategy(&self) -> CachingTagTreeWriteStrategy {
        self.strategy
    }

    /// Wrap a tag tree with an empty cache.
    pub fn new(inner: T, strategy: CachingTagTreeWriteStrategy) -> (r: CachingTagTree<T>)
        requires
            inner.inv(),
        ensures
            r.inv(),
            r.spec_inner() == inner,
            r.spec_strategy() == strategy,
            r.spec_cache() == Map::<(Seq<char>, TagGroup), (TagGroup, u16, Seq<u8>)>::empty(),
    {
        CachingTagTree { inner, tag_cache: TagMap::new(), strategy }
    }

    /// Get the inner instance as a reference.
    pub fn inner(&self) -> (r: &T)
        ensures
            *r == self.spec_inner(),
    {
        &self.inner
    }

    /// Get the inner instance as a mutable reference. While the borrow
    /// lives, the cache and the strategy are untouched; if the caller
    /// leaves the wrapped tree's own invariant intact, the whole store's
    /// invariant is kept as well.
    pub fn inner_mut(&mut self) -> (r: &mut T)
        ensures
            *r == old(self).spec_inner(),
            *final(r) == final(self).spec_inner(),
            final(self).spec_cache() == old(self).spec_cache(),
            final(self).spec_strategy() == old(self).spec_strategy(),
            old(self).inv() ==> (final(self).inv() <==> final(self).spec_inner().inv()),
    {
        &mut self.inner
    }

    /// Consume the cache and return the inner value.
    pub fn into_inner(self) -> (r: T)
        ensures
            r == self.spec_inner(),
    {
        self.inner
    }

    /// How the decorated store's abstractions decompose: its point
    /// lookups are the wrapped tree's overlaid by the cache (the cache
    /// winning), its directory listings delegate straight through to the
    /// wrapped tree, and its invariant includes the wrapped tree's own.
    pub proof fn lemma_overlay_view(&self)
        ensures
            self.spec_tags() == self.spec_inner().spec_tags().union_prefer_right(
                self.spec_cache(),
            ),
            forall|d: Seq<char>| self.spec_listing(d) == self.spec_inner().spec_listing(d),
            self.inv() ==> self.spec_inner().inv(),
    {
    }

    /// Get a copy of the tag held in the cache; `None` if no such tag is
    /// cached. The wrapped tree is never consulted.
    pub fn get(&self, path: &TagPath) -> (r: Option<TagInstance>)
        requires
            self.inv(),
        ensures
            r is Some <==> self.spec_cache().contains_key(spec_path_key(*path)),
            r matches Some(t) ==> spec_tag_view(t) == self.spec_cache()[spec_path_key(*path)],
    {
        match self.tag_cache.get(path) {
            Some(t) => Some(t.clone()),
            None => None,
        }
    }

    /// Evict a tag from the tag cache and return it if it existed; `None`
    /// — not an error — if it was not cached. The wrapped tree is not
    /// affected.
    pub fn evict(&mut self, path: &TagPath) -> (r: Option<TagInstance>)
        requires
            old(self).inv(),
        ensures
            final(self).inv(),
            final(self).spec_inner() == old(self).spec_inner(),
            final(self).spec_strategy() == old(self).spec_strategy(),
            final(self).spec_cache() == old(self).spec_cache().remove(spec_path_key(*path)),
            r is Some <==> old(self).spec_cache().contains_key(spec_path_key(*path)),
            r matches Some(t) ==> spec_tag_view(t) == old(self).spec_cache()[spec_path_key(
                *path,
            )],
    {
        self.tag_cache.remove(path)
    }

    /// Write the cached tag for one path to the wrapped tree. Fails with a
    /// not-found kind if the path is not cached; a failure of the wrapped
    /// tree's own write propagates unchanged. The cache is not modified.
    pub fn commit(&mut self, path: &TagPath) -> (r: RinghopperResult<()>)
        requires
            old(self).inv(),
        ensures
            final(self).inv(),
            final(self).spec_cache() == old(self).spec_cache(),
            final(self).spec_strategy() == old(self).spec_strategy(),
            !old(self).spec_cache().contains_key(spec_path_key(*path)) ==> (
            r matches Err(e) && e matches Error::TagNotFound(_)) && final(self).spec_inner()
                == old(self).spec_inner(),
            old(self).spec_cache().contains_key(spec_path_key(*path)) && r is Ok ==> final(self).spec_inner().spec_tags() == old(self).spec_inner().spec_tags().insert(
                spec_path_key(*path),
                old(self).spec_cache()[spec_path_key(*path)],
            ),
            old(self).spec_cache().contains_key(spec_path_key(*path)) && r is Err ==> final(self).spec_inner().spec_tags() == old(self).spec_inner().spec_tags(),
    {
        let tag = match self.tag_cache.get(path) {
            Some(t) => t.clone(),
            None => {
                return Err(Error::TagNotFound(path.clone()));
            },
        };
        match self.inner.write_tag(path, &tag) {
            Ok(()) => Ok(()),
            Err(e) => Err(e),
        }
    }

    /// Write every cached tag to the wrapped tree. Never aborts early:
    /// collects and returns the full list of (path, error) failures, so
    /// some paths may be written even when others fail. Iteration order
    /// over the cache is unspecified. The cache is not modified.
    pub fn commit_all(&mut self) -> (r: Vec<(TagPath, Error)>)
        requires
            old(self).inv(),
        ensures
            final(self).inv(),
            final(self).spec_cache() == old(self).spec_cache(),
            final(self).spec_strategy() == old(self).spec_strategy(),
            forall|k: (Seq<char>, TagGroup)|
                old(self).spec_cache().contains_key(k) && !spec_error_paths(r@).contains(k)
                    ==> final(self).spec_inner().spec_tags().contains_key(k) && final(self).spec_inner().spec_tags()[k] == old(self).spec_cache()[k],
            forall|k: (Seq<char>, TagGroup)|
                !old(self).spec_cache().contains_key(k) ==> (final(self).spec_inner().spec_tags().contains_key(k) <==> old(self).spec_inner().spec_tags().contains_key(k)) && (old(self).spec_inner().spec_tags().contains_key(k) ==> final(self).spec_inner().spec_tags()[k] == old(self).spec_inner().spec_tags()[k]),
            forall|j: int|
                0 <= j < r@.len() ==> old(self).spec_cache().contains_key(
                    spec_path_key(#[trigger] r@[j].0),
                ),
    {
        proof {
            self.tag_cache.lemma_entries_cover();
        }
        let mut errors: Vec<(TagPath, Error)> = Vec::new();
        let n = self.tag_cache.len();
        let mut i: usize = 0;
        while i < n
            invariant
                0 <= i <= n,
                self.inner.inv(),
                self.tag_cache.wf(),
                self.tag_cache@ == old(self).tag_cache@,
                n == self.tag_cache.spec_len(),
                self.strategy == old(self).strategy,
                forall|j: int|
                    0 <= j < i && !spec_error_paths(errors@).contains(
                        #[trigger] self.tag_cache.entry_key(j),
                    ) ==> self.inner.spec_tags().contains_key(self.tag_cache.entry_key(j))
                        && self.inner.spec_tags()[self.tag_cache.entry_key(j)]
                        == self.tag_cache.entry_view(j),
                forall|k: (Seq<char>, TagGroup)|
                    !self.tag_cache@.contains_key(k) ==> (self.inner.spec_tags().contains_key(k)
                        <==> old(self).inner.spec_tags().contains_key(k)) && (old(self).inner.spec_tags().contains_key(k) ==> self.inner.spec_tags()[k] == old(self).inner.spec_tags()[k]),
                forall|j: int|
                    0 <= j < errors@.len() ==> self.tag_cache@.contains_key(
                        spec_path_key(#[trigger] errors@[j].0),
                    ),
            decreases n - i,
        {
            proof {
                self.tag_cache.lemma_entries_cover();
            }
            let (path_ref, tag_ref) = self.tag_cache.entry_at(i);
            let path = path_ref.clone();
            let tag = tag_ref.clone();
            let ghost errors_before = errors@;
            match self.inner.write_tag(&path, &tag) {
                Ok(()) => (),
                Err(e) => {
                    errors.push((path, e));
                    proof {
                        assert forall|k: (Seq<char>, TagGroup)|
                            spec_error_paths(errors_before).contains(k) implies spec_error_paths(
                            errors@,
                        ).contains(k) by {
                            let j = choose|j: int|
                                0 <= j < errors_before.len() && spec_path_key(
                                    #[trigger] errors_before[j].0,
                                ) == k;
                            assert(spec_path_key(errors@[j].0) == k);
                        }
                        assert(spec_error_paths(errors@).contains(
                            self.tag_cache.entry_key(i as int),
                        )) by {
                            assert(spec_path_key(errors@[errors@.len() - 1].0)
                                == self.tag_cache.entry_key(i as int));
                        }
                    }
                },
            };
            i = i + 1;
        }
        proof {
            self.tag_cache.lemma_entries_cover();
            assert forall|k: (Seq<char>, TagGroup)|
                old(self).spec_cache().contains_key(k) && !spec_error_paths(errors@).contains(
                    k,
                ) implies final(self).spec_inner().spec_tags().contains_key(k) && final(self).spec_inner().spec_tags()[k] == old(self).spec_cache()[k] by {
                let j = choose|j: int|
                    0 <= j < self.tag_cache.spec_len() && #[trigger] self.tag_cache.entry_key(j)
                        == k;
            }
        }
        errors
    }
}

impl<T: TagTree> TagTree for CachingTagTree<T> {
    closed spec fn inv(&self) -> bool {
        self.inner.inv() && self.tag_cache.wf()
    }

    closed spec fn spec_tags(&self) -> Map<(Seq<char>, TagGroup), (TagGroup, u16, Seq<u8>)> {
        self.inner.spec_tags().union_prefer_right(self.tag_cache@)
    }

    closed spec fn spec_listing(&self, dir: Seq<char>) -> Option<Seq<TagTreeItemView>> {
        self.inner.spec_listing(dir)
    }

    /// On a cache hit the cached instance is copied out without consulting
    /// the wrapped tree; on a miss the wrapped tree's copy populates the
    /// cache.
    fn open_tag_copy(&mut self, path: &TagPath) -> (r: RinghopperResult<TagInstance>)
        ensures
            final(self).spec_strategy() == old(self).spec_strategy(),
            old(self).spec_cache().contains_key(spec_path_key(*path)) ==> final(self).spec_inner()
                == old(self).spec_inner() && final(self).spec_cache() == old(self).spec_cache(),
            r is Ok ==> final(self).spec_cache().contains_key(spec_path_key(*path)) && (
            r matches Ok(t) ==> final(self).spec_cache()[spec_path_key(*path)] == spec_tag_view(
                t,
            )),
            r is Err ==> final(self).spec_cache() == old(self).spec_cache(),
    {
        self.open_tag_shared(path)
    }

    /// Open through the cache: a second shared open of the same path is
    /// served from the cache, observing whatever instance the first open
    /// stored.
    fn open_tag_shared(&mut self, path: &TagPath) -> (r: RinghopperResult<TagInstance>)
        ensures
            final(self).spec_strategy() == old(self).spec_strategy(),
            old(self).spec_cache().contains_key(spec_path_key(*path)) ==> final(self).spec_inner()
                == old(self).spec_inner() && final(self).spec_cache() == old(self).spec_cache(),
            r is Ok ==> final(self).spec_cache().contains_key(spec_path_key(*path)) && (
            r matches Ok(t) ==> final(self).spec_cache()[spec_path_key(*path)] == spec_tag_view(
                t,
            )),
            r is Err ==> final(self).spec_cache() == old(self).spec_cache(),
    {
        match self.tag_cache.get(path) {
            Some(t) => {
                let r = t.clone();
                return Ok(r);
            },
            None => {},
        };
        let result = match self.inner.open_tag_copy(path) {
            Ok(t) => t,
            Err(e) => {
                return Err(e);
            },
        };
        let cached = result.clone();
        self.tag_cache.insert(path.clone(), cached);
        proof {
            assert(self.spec_tags() =~= old(self).spec_tags());
        }
        Ok(result)
    }

    /// Directory listings always delegate straight through: the cache
    /// never shadows or merges into them.
    fn files_in_path(&self, path: &str) -> (r: Option<Vec<TagTreeItem>>) {
        self.inner.files_in_path(path)
    }

    /// Under the instant strategy the write is forwarded to the wrapped
    /// tree first; if that fails, the error propagates and the cache is
    /// left unmodified. Then — or immediately, under the manual strategy —
    /// a copy of the written value becomes the new cache entry.
    fn write_tag(&mut self, path: &TagPath, tag: &TagInstance) -> (r: RinghopperResult<()>)
        ensures
            final(self).spec_strategy() == old(self).spec_strategy(),
            old(self).spec_strategy() is Instant && r is Ok ==> final(self).spec_inner().spec_tags() == old(self).spec_inner().spec_tags().insert(
                spec_path_key(*path),
                spec_tag_view(*tag),
            ),
            old(self).spec_strategy() is Manual ==> r is Ok && final(self).spec_inner() == old(self).spec_inner(),
            r is Ok ==> final(self).spec_cache() == old(self).spec_cache().insert(
                spec_path_key(*path),
                spec_tag_view(*tag),
            ),
            r is Err ==> final(self).spec_cache() == old(self).spec_cache(),
    {
        if self.strategy == CachingTagTreeWriteStrategy::Instant {
            match self.inner.write_tag(path, tag) {
                Ok(()) => (),
                Err(e) => {
                    return Err(e);
                },
            };
        }
        self.tag_cache.insert(path.clone(), tag.clone());
        proof {
            assert(self.spec_tags() =~= old(self).spec_tags().insert(
                spec_path_key(*path),
                spec_tag_view(*tag),
            ));
        }
        Ok(())
    }
}

} // verus!
