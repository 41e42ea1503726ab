//! Wildcard filtering of tag paths.
//!
//! A filter is a pattern over logical paths, optionally scoped to one
//! group. The pattern supports two wildcard tokens: `?` matches exactly one
//! character and `*` matches zero or more characters, spanning directory
//! separators. Matching is case-sensitive; pattern separators are
//! normalized to the store's canonical separator at construction.

use vstd::prelude::*;
use vstd::string::StrSliceExecFns;
use vstd::string::StringExecFns;
use crate::primitive::{TagGroup, TagPath};

verus! {

/// Textbook recursive glob matching: an empty pattern matches only the
/// empty candidate; `*` matches by either being dropped or consuming one
/// candidate character; `?` or an equal literal consumes one character of
/// both.
pub open spec fn spec_glob_match(p: Seq<char>, s: Seq<char>) -> bool
    decreases p.len(), s.len(),
{
    if p.len() == 0 {
        s.len() == 0
    } else if p[0] == '*' {
        spec_glob_match(p.skip(1), s) || (s.len() > 0 && spec_glob_match(p, s.skip(1)))
    } else if s.len() == 0 {
        false
    } else {
        (p[0] == '?' || p[0] == s[0]) && spec_glob_match(p.skip(1), s.skip(1))
    }
}

/// One character of filter normalization: path separators become the
/// canonical separator; every other character, case included, is kept.
pub open spec fn spec_filter_normal_char(c: char) -> char {
    if c == '/' {
        '\\'
    } else {
        c
    }
}

/// The normalized form of a whole filter pattern.
pub open spec fn spec_filter_normalized(s: Seq<char>) -> Seq<char> {
    s.map_values(|c: char| spec_filter_normal_char(c))
}

/// A wildcard filter over tag paths. With no group, the pattern is matched
/// against the whole internal path, extension included; with a group, the
/// group is compared exactly and the pattern is matched against the path
/// alone.
#[derive(Debug)]
pub struct TagFilter {
    filter: String,
    group: Option<TagGroup>,
}

impl TagFilter {
    /// The normalized pattern.
    pub closed spec fn spec_filter(&self) -> Seq<char> {
        self.filter@
    }

    /// The group scope, if any.
    pub closed spec fn spec_group(&self) -> Option<TagGroup> {
        self.group
    }

    /// What it means for a path to pass this filter.
    pub open spec fn spec_passes(&self, path: TagPath) -> bool {
        match self.spec_group() {
            Some(g) => path.spec_group() == g && spec_glob_match(
                self.spec_filter(),
                path.spec_path(),
            ),
            None => spec_glob_match(self.spec_filter(), path.spec_internal_path()),
        }
    }

    /// Check if the given path is likely a filter: whether it holds a
    /// wildcard token.
    pub fn is_filter(path: &str) -> (r: bool)
        ensures
            r == exists|i: int| 0 <= i < path@.len() && (path@[i] == '?' || path@[i] == '*'),
    {
        let len = path.unicode_len();
        let mut i: usize = 0;
        while i < len
            invariant
                0 <= i <= len,
                len == path@.len(),
                forall|j: int| 0 <= j < i ==> path@[j] != '?' && path@[j] != '*',
            decreases len - i,
        {
            let c = path.get_char(i);
            if c == '?' || c == '*' {
                return true;
            }
            i = i + 1;
        }
        false
    }

    /// Create a tag filter. The pattern's separators are normalized; with
    /// `group` unset the filter matches whole internal paths, otherwise it
    /// matches the path while the group is compared exactly.
    pub fn new(filter: &str, group: Option<TagGroup>) -> (r: TagFilter)
        ensures
            r.spec_filter() == spec_filter_normalized(filter@),
            r.spec_group() == group,
    {
        let len = filter.unicode_len();
        let mut fixed = String::new();
        let mut i: usize = 0;
        while i < len
            invariant
                0 <= i <= len,
                len == filter@.len(),
                fixed@ =~= spec_filter_normalized(filter@).take(i as int),
            decreases len - i,
        {
            let piece: &str = if filter.get_char(i) == '/' {
                "\\"
            } else {
                filter.substring_char(i, i + 1)
            };
            proof {
                reveal_strlit("\\");
            }
            fixed.append(piece);
            i = i + 1;
        }
        proof {
            assert(fixed@ =~= spec_filter_normalized(filter@));
        }
        TagFilter { filter: fixed, group }
    }

    /// Test that the path passes the filter.
    pub fn passes(&self, path: &TagPath) -> (r: bool)
        ensures
            r == self.spec_passes(*path),
    {
        match self.group {
            Some(n) => {
                if path.group() != n {
                    return false;
                }
                Self::filter_passes_raw(self.filter.as_str(), path.path())
            },
            None => {
                let internal = path.to_internal_path();
                Self::filter_passes_raw(self.filter.as_str(), internal.as_str())
            },
        }
    }

    /// Match a raw pattern against a raw candidate string.
    fn filter_passes_raw(filter: &str, what: &str) -> (r: bool)
        ensures
            r == spec_glob_match(filter@, what@),
    {
        let flen = filter.unicode_len();
        let slen = what.unicode_len();
        proof {
            assert(filter@.skip(0) =~= filter@);
            assert(what@.skip(0) =~= what@);
        }
        glob_match_at(filter, 0, what, 0)
    }
}

/// Recursive glob matching from position `pi` of the pattern and `si` of
/// the candidate.
fn glob_match_at(filter: &str, pi: usize, what: &str, si: usize) -> (r: bool)
    requires
        pi <= filter@.len() <= usize::MAX,
        si <= what@.len() <= usize::MAX,
    ensures
        r == spec_glob_match(filter@.skip(pi as int), what@.skip(si as int)),
    decreases filter@.len() - pi, what@.len() - si,
{
    let flen = filter.unicode_len();
    let slen = what.unicode_len();
    let ghost p = filter@.skip(pi as int);
    let ghost s = what@.skip(si as int);
    if pi == flen {
        proof {
            assert(p.len() == 0);
        }
        si == slen
    } else {
        let pc = filter.get_char(pi);
        proof {
            assert(p[0] == filter@[pi as int]);
            assert(filter@.skip(pi as int + 1) =~= p.skip(1));
        }
        if pc == '*' {
            if glob_match_at(filter, pi + 1, what, si) {
                true
            } else if si < slen {
                proof {
                    assert(what@.skip(si as int + 1) =~= s.skip(1));
                }
                glob_match_at(filter, pi, what, si + 1)
            } else {
                false
            }
        } else if si == slen {
            proof {
                assert(s.len() == 0);
            }
            false
        } else {
            let sc = what.get_char(si);
            proof {
                assert(s[0] == what@[si as int]);
                assert(what@.skip(si as int + 1) =~= s.skip(1));
            }
            if pc == '?' || pc == sc {
                glob_match_at(filter, pi + 1, what, si + 1)
            } else {
                false
            }
        }
    }
}

/// A filter whose pattern is the catch-all `*`, scoped to a group,
/// passes every path of that group, whatever its literal text.
pub proof fn lemma_catch_all_filter(f: TagFilter, p: TagPath)
    requires
        f.spec_filter() == seq!['*'],
        f.spec_group() == Some(p.spec_group()),
    ensures
        f.spec_passes(p),
{
    lemma_star_matches_all(p.spec_path());
}

/// The catch-all pattern: a single `*` matches every candidate string.
pub proof fn lemma_star_matches_all(s: Seq<char>)
    ensures
        spec_glob_match(seq!['*'], s),
    decreases s.len(),
{
    let p = seq!['*'];
    assert(p.skip(1) =~= Seq::<char>::empty());
    assert(p[0] == '*');
    if s.len() == 0 {
        assert(spec_glob_match(p.skip(1), s));
    } else {
        lemma_star_matches_all(s.skip(1));
        assert(spec_glob_match(p, s.skip(1)));
    }
}

} // verus!
