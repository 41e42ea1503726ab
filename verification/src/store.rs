//! A verified mapping from tag paths to type-erased tags.
//!
//! The tag tree layers need one shared container: a mapping keyed by the
//! normalized (path, group) pair, with point lookup, insert-or-replace,
//! removal and indexed traversal. It is kept as an association list with
//! unique keys and viewed as a `Map` in every contract.

use vstd::prelude::*;
use crate::primitive::{TagGroup, TagPath};
use crate::tag::TagInstance;

verus! {

/// The identity of a tag: its normalized path string and its group.
pub open spec fn spec_path_key(p: TagPath) -> (Seq<char>, TagGroup) {
    (p.spec_path(), p.spec_group())
}

/// The abstract value of an erased tag: group, version, payload bytes.
pub open spec fn spec_tag_view(t: TagInstance) -> (TagGroup, u16, Seq<u8>) {
    (t.spec_group(), t.spec_version(), t.spec_payload())
}

/// The map folded from an association sequence, later entries winning.
pub open spec fn spec_assoc_map(entries: Seq<(TagPath, TagInstance)>) -> Map<
    (Seq<char>, TagGroup),
    (TagGroup, u16, Seq<u8>),
>
    decreases entries.len(),
{
    if entries.len() == 0 {
        Map::empty()
    } else {
        spec_assoc_map(entries.drop_last()).insert(
            spec_path_key(entries.last().0),
            spec_tag_view(entries.last().1),
        )
    }
}

/// The folded map holds exactly the keys of the sequence's entries.
pub proof fn lemma_assoc_map_domain(entries: Seq<(TagPath, TagInstance)>, k: (Seq<char>, TagGroup))
    ensures
        spec_assoc_map(entries).contains_key(k) <==> exists|i: int|
            0 <= i < entries.len() && spec_path_key(#[trigger] entries[i].0) == k,
    decreases entries.len(),
{
    if entries.len() > 0 {
        lemma_assoc_map_domain(entries.drop_last(), k);
        if spec_path_key(entries.last().0) == k {
            assert(spec_path_key(entries[entries.len() - 1].0) == k);
        } else {
            assert forall|i: int|
                0 <= i < entries.len() && spec_path_key(#[trigger] entries[i].0)
                    == k implies spec_assoc_map(entries).contains_key(k) by {
                assert(entries.drop_last()[i] == entries[i]);
            }
            assert forall|i: int|
                0 <= i < entries.len() - 1 && spec_path_key(#[trigger] entries.drop_last()[i].0)
                    == k implies exists|i: int|
                0 <= i < entries.len() && spec_path_key(#[trigger] entries[i].0) == k by {
                assert(entries[i] == entries.drop_last()[i]);
            }
        }
    }
}

/// With unique keys, the folded map sends each entry's key to that entry's
/// value.
pub proof fn lemma_assoc_map_at(entries: Seq<(TagPath, TagInstance)>, i: int)
    requires
        0 <= i < entries.len(),
        forall|a: int, b: int|
            0 <= a < b < entries.len() ==> spec_path_key(#[trigger] entries[a].0) != spec_path_key(
                #[trigger] entries[b].0,
            ),
    ensures
        spec_assoc_map(entries).contains_key(spec_path_key(entries[i].0)),
        spec_assoc_map(entries)[spec_path_key(entries[i].0)] == spec_tag_view(entries[i].1),
    decreases entries.len(),
{
    lemma_assoc_map_domain(entries, spec_path_key(entries[i].0));
    if i == entries.len() - 1 {
    } else {
        assert(entries.drop_last()[i] == entries[i]);
        lemma_assoc_map_at(entries.drop_last(), i);
        assert(spec_path_key(entries[i].0) != spec_path_key(entries[entries.len() - 1].0));
    }
}

/// A mapping from tag paths to erased tags, backed by an association list
/// with unique keys.
#[derive(Debug)]
pub struct TagMap {
    entries: Vec<(TagPath, TagInstance)>,
}

impl TagMap {
    /// The abstract contents of the mapping.
    pub closed spec fn view(&self) -> Map<(Seq<char>, TagGroup), (TagGroup, u16, Seq<u8>)> {
        spec_assoc_map(self.entries@)
    }

    /// Every key occurs at most once in the backing list.
    pub closed spec fn wf(&self) -> bool {
        forall|a: int, b: int|
            0 <= a < b < self.entries@.len() ==> spec_path_key(#[trigger] self.entries@[a].0)
                != spec_path_key(#[trigger] self.entries@[b].0)
    }

    /// The number of held entries, which equals the size of the contents.
    pub closed spec fn spec_len(&self) -> nat {
        self.entries@.len()
    }

    /// An empty mapping.
    pub fn new() -> (r: TagMap)
        ensures
            r@ == Map::<(Seq<char>, TagGroup), (TagGroup, u16, Seq<u8>)>::empty(),
            r.wf(),
            r.spec_len() == 0,
    {
        TagMap { entries: Vec::new() }
    }

    /// Find the index holding `path`, if any.
    fn find(&self, path: &TagPath) -> (r: Option<usize>)
        requires
            self.wf(),
        ensures
            match r {
                Some(i) => i < self.spec_len() && self.entry_key(i as int) == spec_path_key(*path),
                None => !self@.contains_key(spec_path_key(*path)),
            },
            r is Some <==> self@.contains_key(spec_path_key(*path)),
    {
        proof {
            lemma_assoc_map_domain(self.entries@, spec_path_key(*path));
        }
        let n = self.entries.len();
        let mut i: usize = 0;
        while i < n
            invariant
                self.wf(),
                0 <= i <= n,
                n == self.entries@.len(),
                forall|j: int|
                    0 <= j < i ==> spec_path_key(#[trigger] self.entries@[j].0) != spec_path_key(
                        *path,
                    ),
            decreases n - i,
        {
            if self.entries[i].0 == *path {
                proof {
                    lemma_assoc_map_domain(self.entries@, spec_path_key(*path));
                }
                return Some(i);
            }
            i = i + 1;
        }
        None
    }

    /// The key stored at index `i` of the backing list.
    pub closed spec fn entry_key(&self, i: int) -> (Seq<char>, TagGroup) {
        spec_path_key(self.entries@[i].0)
    }

    /// The path stored at index `i` of the backing list.
    pub closed spec fn entry_path(&self, i: int) -> TagPath {
        self.entries@[i].0
    }

    /// The value stored at index `i` of the backing list.
    pub closed spec fn entry_view(&self, i: int) -> (TagGroup, u16, Seq<u8>) {
        spec_tag_view(self.entries@[i].1)
    }

    /// Indexed traversal stays inside the contents, covers all of it, and
    /// repeats no key.
    pub proof fn lemma_entries_cover(&self)
        requires
            self.wf(),
        ensures
            forall|i: int|
                0 <= i < self.spec_len() ==> self@.contains_key(#[trigger] self.entry_key(i))
                    && self@[self.entry_key(i)] == self.entry_view(i),
            forall|k: (Seq<char>, TagGroup)|
                self@.contains_key(k) ==> exists|i: int|
                    0 <= i < self.spec_len() && #[trigger] self.entry_key(i) == k,
            forall|a: int, b: int|
                0 <= a < b < self.spec_len() ==> self.entry_key(a) != self.entry_key(b),
    {
        assert forall|i: int| 0 <= i < self.spec_len() implies self@.contains_key(
            #[trigger] self.entry_key(i),
        ) && self@[self.entry_key(i)] == self.entry_view(i) by {
            lemma_assoc_map_at(self.entries@, i);
        }
        assert forall|k: (Seq<char>, TagGroup)| self@.contains_key(k) implies exists|i: int|
            0 <= i < self.spec_len() && #[trigger] self.entry_key(i) == k by {
            lemma_assoc_map_domain(self.entries@, k);
            let i = choose|i: int|
                0 <= i < self.entries@.len() && spec_path_key(#[trigger] self.entries@[i].0) == k;
            assert(self.entry_key(i) == k);
        }
    }

    /// The number of held entries.
    pub fn len(&self) -> (r: usize)
        ensures
            r == self.spec_len(),
    {
        self.entries.len()
    }

    /// Read the entry at an index, for traversal.
    pub fn entry_at(&self, i: usize) -> (r: (&TagPath, &TagInstance))
        requires
            i < self.spec_len(),
        ensures
            *r.0 == self.entry_path(i as int),
            spec_path_key(*r.0) == self.entry_key(i as int),
            spec_tag_view(*r.1) == self.entry_view(i as int),
    {
        let entry = &self.entries[i];
        (&entry.0, &entry.1)
    }

    /// Look up the tag held for `path`.
    pub fn get(&self, path: &TagPath) -> (r: Option<&TagInstance>)
        requires
            self.wf(),
        ensures
            match r {
                Some(t) => self@.contains_key(spec_path_key(*path)) && spec_tag_view(*t)
                    == self@[spec_path_key(*path)],
                None => !self@.contains_key(spec_path_key(*path)),
            },
            r is Some <==> self@.contains_key(spec_path_key(*path)),
    {
        match self.find(path) {
            Some(i) => {
                proof {
                    lemma_assoc_map_at(self.entries@, i as int);
                }
                Some(&self.entries[i].1)
            },
            None => None,
        }
    }

    /// Insert or replace the tag held for `path`.
    pub fn insert(&mut self, path: TagPath, tag: TagInstance)
        requires
            old(self).wf(),
        ensures
            final(self).wf(),
            final(self)@ == old(self)@.insert(spec_path_key(path), spec_tag_view(tag)),
    {
        match self.find(&path) {
            Some(i) => {
                proof {
                    lemma_assoc_map_at(self.entries@, i as int);
                }
                let ghost before = self.entries@;
                self.entries[i] = (path, tag);
                proof {
                    lemma_replace_at(before, self.entries@, i as int);
                }
            },
            None => {
                proof {
                    lemma_assoc_map_domain(self.entries@, spec_path_key(path));
                }
                self.entries.push((path, tag));
                proof {
                    assert(self.entries@.drop_last() =~= old(self).entries@);
                }
            },
        }
    }

    /// Remove and return the tag held for `path`, or `None` — not an
    /// error — when nothing is held for it.
    pub fn remove(&mut self, path: &TagPath) -> (r: Option<TagInstance>)
        requires
            old(self).wf(),
        ensures
            final(self).wf(),
            match r {
                Some(t) => old(self)@.contains_key(spec_path_key(*path)) && spec_tag_view(t)
                    == old(self)@[spec_path_key(*path)],
                None => !old(self)@.contains_key(spec_path_key(*path)),
            },
            r is Some <==> old(self)@.contains_key(spec_path_key(*path)),
            final(self)@ == old(self)@.remove(spec_path_key(*path)),
    {
        match self.find(path) {
            Some(i) => {
                proof {
                    lemma_assoc_map_at(self.entries@, i as int);
                }
                let ghost before = self.entries@;
                let entry = self.entries.remove(i);
                proof {
                    lemma_remove_at(before, self.entries@, i as int);
                }
                Some(entry.1)
            },
            None => {
                proof {
                    lemma_assoc_map_domain(self.entries@, spec_path_key(*path));
                    assert(self@ =~= self@.remove(spec_path_key(*path)));
                }
                None
            },
        }
    }
}

/// Replacing the entry at a unique-keyed index `i` by one with the same key
/// updates the folded map at that key alone.
proof fn lemma_replace_at(
    before: Seq<(TagPath, TagInstance)>,
    after: Seq<(TagPath, TagInstance)>,
    i: int,
)
    requires
        0 <= i < before.len(),
        after.len() == before.len(),
        forall|j: int| 0 <= j < before.len() && j != i ==> after[j] == before[j],
        spec_path_key(after[i].0) == spec_path_key(before[i].0),
        forall|a: int, b: int|
            0 <= a < b < before.len() ==> spec_path_key(#[trigger] before[a].0) != spec_path_key(
                #[trigger] before[b].0,
            ),
    ensures
        forall|a: int, b: int|
            0 <= a < b < after.len() ==> spec_path_key(#[trigger] after[a].0) != spec_path_key(
                #[trigger] after[b].0,
            ),
        spec_assoc_map(after) == spec_assoc_map(before).insert(
            spec_path_key(after[i].0),
            spec_tag_view(after[i].1),
        ),
{
    assert forall|a: int, b: int| 0 <= a < b < after.len() implies spec_path_key(
        #[trigger] after[a].0,
    ) != spec_path_key(#[trigger] after[b].0) by {
        assert(spec_path_key(after[a].0) == spec_path_key(before[a].0));
        assert(spec_path_key(after[b].0) == spec_path_key(before[b].0));
    }
    let k = spec_path_key(after[i].0);
    let m1 = spec_assoc_map(after);
    let m2 = spec_assoc_map(before).insert(k, spec_tag_view(after[i].1));
    assert forall|q: (Seq<char>, TagGroup)| #[trigger]
        m1.contains_key(q) == m2.contains_key(q) && (m1.contains_key(q) ==> m1[q] == m2[q]) by {
        lemma_assoc_map_domain(after, q);
        lemma_assoc_map_domain(before, q);
        if m1.contains_key(q) {
            let j = choose|j: int|
                0 <= j < after.len() && spec_path_key(#[trigger] after[j].0) == q;
            lemma_assoc_map_at(after, j);
            if q == k {
                lemma_assoc_map_at(after, i);
            } else {
                lemma_assoc_map_at(before, j);
            }
        }
        if m2.contains_key(q) && q != k {
            let j = choose|j: int|
                0 <= j < before.len() && spec_path_key(#[trigger] before[j].0) == q;
            assert(spec_path_key(after[j].0) == q);
        }
        if q == k {
            assert(spec_path_key(after[i].0) == q);
        }
    }
    assert(m1 =~= m2);
}

/// Removing the entry at a unique-keyed index `i` removes its key from the
/// folded map and nothing else.
proof fn lemma_remove_at(
    before: Seq<(TagPath, TagInstance)>,
    after: Seq<(TagPath, TagInstance)>,
    i: int,
)
    requires
        0 <= i < before.len(),
        after.len() == before.len() - 1,
        forall|j: int| 0 <= j < i ==> after[j] == before[j],
        forall|j: int| i <= j < after.len() ==> after[j] == before[j + 1],
        forall|a: int, b: int|
            0 <= a < b < before.len() ==> spec_path_key(#[trigger] before[a].0) != spec_path_key(
                #[trigger] before[b].0,
            ),
    ensures
        forall|a: int, b: int|
            0 <= a < b < after.len() ==> spec_path_key(#[trigger] after[a].0) != spec_path_key(
                #[trigger] after[b].0,
            ),
        spec_assoc_map(after) == spec_assoc_map(before).remove(spec_path_key(before[i].0)),
{
    assert forall|a: int, b: int| 0 <= a < b < after.len() implies spec_path_key(
        #[trigger] after[a].0,
    ) != spec_path_key(#[trigger] after[b].0) by {
        if a < i {
            assert(after[a] == before[a]);
        } else {
            assert(after[a] == before[a + 1]);
        }
        if b < i {
            assert(after[b] == before[b]);
        } else {
            assert(after[b] == before[b + 1]);
        }
    }
    let k = spec_path_key(before[i].0);
    let m1 = spec_assoc_map(after);
    let m2 = spec_assoc_map(before).remove(k);
    assert forall|q: (Seq<char>, TagGroup)| #[trigger]
        m1.contains_key(q) == m2.contains_key(q) && (m1.contains_key(q) ==> m1[q] == m2[q]) by {
        lemma_assoc_map_domain(after, q);
        lemma_assoc_map_domain(before, q);
        if m1.contains_key(q) {
            let j = choose|j: int|
                0 <= j < after.len() && spec_path_key(#[trigger] after[j].0) == q;
            lemma_assoc_map_at(after, j);
            if j < i {
                assert(after[j] == before[j]);
                lemma_assoc_map_at(before, j);
                assert(q != k);
            } else {
                assert(after[j] == before[j + 1]);
                lemma_assoc_map_at(before, j + 1);
                assert(q != k);
            }
        }
        if m2.contains_key(q) {
            let j = choose|j: int|
                0 <= j < before.len() && spec_path_key(#[trigger] before[j].0) == q;
            assert(q != k);
            assert(j != i);
            if j < i {
                assert(after[j] == before[j]);
                assert(spec_path_key(after[j].0) == q);
            } else {
                assert(after[j - 1] == before[j]);
                assert(spec_path_key(after[j - 1].0) == q);
            }
        }
    }
    assert(m1 =~= m2);
}

} // verus!
