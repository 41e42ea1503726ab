//! Tag groups and logical tag paths.
//!
//! A tag group is the asset-type discriminator stored in a tag file's header
//! and used for type-checked decoding. A tag path is the case-normalized,
//! separator-normalized logical location of a tag within a tree, together
//! with its group; the pair is the identity of a tag everywhere in the crate.

use vstd::prelude::*;
use vstd::string::StrSliceExecFns;
use vstd::string::StringExecFns;
use crate::error::Error;

verus! {

/// The canonical path separator of the store.
pub const HALO_PATH_SEPARATOR: char = '\\';

/// The asset-type discriminator of a tag.
#[derive(Copy, Clone, Debug, PartialEq, Eq, Structural)]
pub enum TagGroup {
    Bitmap,
    Model,
    Scenario,
    Sound,
    Weapon,
}

impl TagGroup {
    /// The four-character code that stores this group in a tag file header.
    pub open spec fn spec_fourcc(self) -> u32 {
        match self {
            TagGroup::Bitmap => 0x6269746D,
            TagGroup::Model => 0x6D6F6465,
            TagGroup::Scenario => 0x73636E72,
            TagGroup::Sound => 0x736E6421,
            TagGroup::Weapon => 0x77656170,
        }
    }

    /// The group encoded by a four-character code, if any.
    pub open spec fn spec_from_fourcc(v: u32) -> Option<TagGroup> {
        if v == 0x6269746D {
            Some(TagGroup::Bitmap)
        } else if v == 0x6D6F6465 {
            Some(TagGroup::Model)
        } else if v == 0x73636E72 {
            Some(TagGroup::Scenario)
        } else if v == 0x736E6421 {
            Some(TagGroup::Sound)
        } else if v == 0x77656170 {
            Some(TagGroup::Weapon)
        } else {
            None
        }
    }

    /// The file extension of this group.
    pub open spec fn spec_extension(self) -> Seq<char> {
        match self {
            TagGroup::Bitmap => "bitmap"@,
            TagGroup::Model => "model"@,
            TagGroup::Scenario => "scenario"@,
            TagGroup::Sound => "sound"@,
            TagGroup::Weapon => "weapon"@,
        }
    }

    /// The group whose extension is `s`, if any.
    pub open spec fn spec_from_extension(s: Seq<char>) -> Option<TagGroup> {
        if s == "bitmap"@ {
            Some(TagGroup::Bitmap)
        } else if s == "model"@ {
            Some(TagGroup::Model)
        } else if s == "scenario"@ {
            Some(TagGroup::Scenario)
        } else if s == "sound"@ {
            Some(TagGroup::Sound)
        } else if s == "weapon"@ {
            Some(TagGroup::Weapon)
        } else {
            None
        }
    }

    /// The four-character code that stores this group in a tag file header.
    pub fn fourcc(self) -> (r: u32)
        ensures
            r == self.spec_fourcc(),
    {
        match self {
            TagGroup::Bitmap => 0x6269746D,
            TagGroup::Model => 0x6D6F6465,
            TagGroup::Scenario => 0x73636E72,
            TagGroup::Sound => 0x736E6421,
            TagGroup::Weapon => 0x77656170,
        }
    }

    /// Decode a four-character code back into a group.
    pub fn from_fourcc(v: u32) -> (r: Option<TagGroup>)
        ensures
            r == TagGroup::spec_from_fourcc(v),
    {
        if v == 0x6269746D {
            Some(TagGroup::Bitmap)
        } else if v == 0x6D6F6465 {
            Some(TagGroup::Model)
        } else if v == 0x73636E72 {
            Some(TagGroup::Scenario)
        } else if v == 0x736E6421 {
            Some(TagGroup::Sound)
        } else if v == 0x77656170 {
            Some(TagGroup::Weapon)
        } else {
            None
        }
    }

    /// The file extension of this group.
    pub fn extension(self) -> (r: &'static str)
        ensures
            r@ == self.spec_extension(),
    {
        match self {
            TagGroup::Bitmap => "bitmap",
            TagGroup::Model => "model",
            TagGroup::Scenario => "scenario",
            TagGroup::Sound => "sound",
            TagGroup::Weapon => "weapon",
        }
    }

    /// The group named by a file extension, if the extension is recognized.
    pub fn from_str(s: &str) -> (r: Option<TagGroup>)
        ensures
            r == TagGroup::spec_from_extension(s@),
    {
        if str_eq(s, "bitmap") {
            Some(TagGroup::Bitmap)
        } else if str_eq(s, "model") {
            Some(TagGroup::Model)
        } else if str_eq(s, "scenario") {
            Some(TagGroup::Scenario)
        } else if str_eq(s, "sound") {
            Some(TagGroup::Sound)
        } else if str_eq(s, "weapon") {
            Some(TagGroup::Weapon)
        } else {
            None
        }
    }
}

/// One character of path normalization: path separators become the canonical
/// separator, and ASCII upper-case letters fold to lower case.
pub open spec fn spec_normal_char(c: char) -> char {
    if c == '/' {
        '\\'
    } else if ('A' as int) <= (c as int) && (c as int) <= ('Z' as int) {
        ((c as int) + 32) as char
    } else {
        c
    }
}

/// The normalized form of a whole path string.
pub open spec fn spec_normalized(s: Seq<char>) -> Seq<char> {
    s.map_values(|c: char| spec_normal_char(c))
}

/// The one-character string that `s[i]` normalizes to.
fn normal_char_str<'a>(s: &'a str, i: usize) -> (r: &'a str)
    requires
        i < s@.len(),
        s@.len() <= usize::MAX,
    ensures
        r@ =~= seq![spec_normal_char(s@[i as int])],
{
    proof {
        reveal_strlit("\\");
        reveal_strlit("a");
        reveal_strlit("b");
        reveal_strlit("c");
        reveal_strlit("d");
        reveal_strlit("e");
        reveal_strlit("f");
        reveal_strlit("g");
        reveal_strlit("h");
        reveal_strlit("i");
        reveal_strlit("j");
        reveal_strlit("k");
        reveal_strlit("l");
        reveal_strlit("m");
        reveal_strlit("n");
        reveal_strlit("o");
        reveal_strlit("p");
        reveal_strlit("q");
        reveal_strlit("r");
        reveal_strlit("s");
        reveal_strlit("t");
        reveal_strlit("u");
        reveal_strlit("v");
        reveal_strlit("w");
        reveal_strlit("x");
        reveal_strlit("y");
        reveal_strlit("z");
    }
    let c = s.get_char(i);
    match c {
        '/' => "\\",
        '\\' => "\\",
        'A' => "a",
        'B' => "b",
        'C' => "c",
        'D' => "d",
        'E' => "e",
        'F' => "f",
        'G' => "g",
        'H' => "h",
        'I' => "i",
        'J' => "j",
        'K' => "k",
        'L' => "l",
        'M' => "m",
        'N' => "n",
        'O' => "o",
        'P' => "p",
        'Q' => "q",
        'R' => "r",
        'S' => "s",
        'T' => "t",
        'U' => "u",
        'V' => "v",
        'W' => "w",
        'X' => "x",
        'Y' => "y",
        'Z' => "z",
        _ => s.substring_char(i, i + 1),
    }
}

/// Normalize a path string: canonical separators, lower-case ASCII letters.
pub fn normalize_path(s: &str) -> (r: String)
    ensures
        r@ == spec_normalized(s@),
{
    let len = s.unicode_len();
    let mut out = String::new();
    let mut i: usize = 0;
    while i < len
        invariant
            0 <= i <= len,
            len == s@.len(),
            out@ =~= spec_normalized(s@).take(i as int),
        decreases len - i,
    {
        let piece = normal_char_str(s, i);
        out.append(piece);
        i = i + 1;
    }
    proof {
        assert(out@ =~= spec_normalized(s@));
    }
    out
}

/// The normalized logical location of a tag: a non-empty normalized path
/// string plus the tag's group. The pair is the identity of a tag in every
/// store of this crate.
#[derive(Debug)]
pub struct TagPath {
    path: String,
    group: TagGroup,
}

impl TagPath {
    /// The path string, without extension.
    pub closed spec fn spec_path(&self) -> Seq<char> {
        self.path@
    }

    /// The group of the tag.
    pub closed spec fn spec_group(&self) -> TagGroup {
        self.group
    }

    /// Every tag path is non-empty and normalized.
    pub open spec fn wf(&self) -> bool {
        self.spec_path().len() > 0 && self.spec_path() == spec_normalized(self.spec_path())
    }

    /// The path with its extension, as stored inside a tag tree.
    pub open spec fn spec_internal_path(&self) -> Seq<char> {
        self.spec_path() + "."@ + self.spec_group().spec_extension()
    }

    /// Build a tag path from a path string (without extension) and a group.
    /// The path is normalized; an empty path is rejected.
    pub fn new(path: &str, group: TagGroup) -> (r: Result<TagPath, Error>)
        ensures
            match r {
                Ok(p) => p.spec_path() == spec_normalized(path@) && p.spec_group() == group
                    && p.wf(),
                Err(e) => path@.len() == 0 && (e matches Error::InvalidTagPath),
            },
            r is Ok <==> path@.len() > 0,
    {
        let fixed = normalize_path(path);
        if fixed.as_str().unicode_len() == 0 {
            return Err(Error::InvalidTagPath);
        }
        proof {
            lemma_normalize_idempotent(path@);
        }
        Ok(TagPath { path: fixed, group })
    }

    /// Build a tag path from a path string that ends in a group extension,
    /// such as one read from a directory listing.
    pub fn from_path(s: &str) -> (r: Result<TagPath, Error>)
        ensures
            match r {
                Ok(p) => {
                    let dot = spec_last_dot(s@);
                    &&& dot > 0
                    &&& TagGroup::spec_from_extension(
                        s@.subrange(dot + 1, s@.len() as int),
                    ) == Some(p.spec_group())
                    &&& p.spec_path() == spec_normalized(s@.subrange(0, dot))
                    &&& p.wf()
                },
                Err(e) => e matches Error::InvalidTagPath,
            },
            r is Ok <==> spec_last_dot(s@) > 0 && TagGroup::spec_from_extension(
                s@.subrange(spec_last_dot(s@) + 1, s@.len() as int),
            ) is Some,
    {
        let len = s.unicode_len();
        let dot = match last_dot(s) {
            Some(d) => d,
            None => {
                return Err(Error::InvalidTagPath);
            },
        };
        if dot == 0 {
            return Err(Error::InvalidTagPath);
        }
        let extension = s.substring_char(dot + 1, len);
        let group = match TagGroup::from_str(extension) {
            Some(g) => g,
            None => {
                return Err(Error::InvalidTagPath);
            },
        };
        let name = s.substring_char(0, dot);
        TagPath::new(name, group)
    }

    /// The path string, without extension.
    pub fn path(&self) -> (r: &str)
        ensures
            r@ == self.spec_path(),
    {
        self.path.as_str()
    }

    /// The group of the tag.
    pub fn group(&self) -> (r: TagGroup)
        ensures
            r == self.spec_group(),
    {
        self.group
    }

    /// The path with its extension, as stored inside a tag tree.
    pub fn to_internal_path(&self) -> (r: String)
        ensures
            r@ == self.spec_internal_path(),
    {
        let mut out = String::new();
        out.append(self.path.as_str());
        out.append(".");
        out.append(self.group.extension());
        proof {
            assert(out@ =~= self.spec_internal_path());
        }
        out
    }
}

impl Clone for TagPath {
    /// Cloning preserves the path and the group.
    fn clone(&self) -> (r: Self)
        ensures
            r.spec_path() == self.spec_path(),
            r.spec_group() == self.spec_group(),
    {
        TagPath { path: self.path.clone(), group: self.group }
    }
}

impl PartialEq for TagPath {
    fn eq(&self, other: &TagPath) -> (r: bool) {
        self.path == other.path && self.group == other.group
    }
}

impl vstd::std_specs::cmp::PartialEqSpecImpl for TagPath {
    open spec fn obeys_eq_spec() -> bool {
        true
    }

    open spec fn eq_spec(&self, other: &TagPath) -> bool {
        self.spec_path() == other.spec_path() && self.spec_group() == other.spec_group()
    }
}

/// The index of the last `.` in `s`, or `-1` if there is none.
pub open spec fn spec_last_dot(s: Seq<char>) -> int
    decreases s.len(),
{
    if s.len() == 0 {
        -1
    } else if s[s.len() - 1] == '.' {
        s.len() - 1
    } else {
        spec_last_dot(s.drop_last())
    }
}

/// Find the last `.` in a string.
pub(crate) fn last_dot(s: &str) -> (r: Option<usize>)
    ensures
        match r {
            Some(d) => spec_last_dot(s@) == d && d < s@.len(),
            None => spec_last_dot(s@) == -1,
        },
{
    let len = s.unicode_len();
    let mut i: usize = len;
    proof {
        assert(s@.take(len as int) =~= s@);
    }
    while i > 0
        invariant
            0 <= i <= len,
            len == s@.len(),
            spec_last_dot(s@) == spec_last_dot(s@.take(i as int)),
        decreases i,
    {
        proof {
            assert(s@.take(i as int).drop_last() =~= s@.take(i as int - 1));
        }
        if s.get_char(i - 1) == '.' {
            return Some(i - 1);
        }
        i = i - 1;
    }
    proof {
        assert(s@.take(0) =~= Seq::<char>::empty());
    }
    None
}

/// Normalization is idempotent: normalizing a normalized path changes
/// nothing.
pub proof fn lemma_normalize_idempotent(s: Seq<char>)
    ensures
        spec_normalized(spec_normalized(s)) == spec_normalized(s),
{
    assert forall|c: char| #[trigger] spec_normal_char(spec_normal_char(c)) == spec_normal_char(
        c,
    ) by {
    }
    assert(spec_normalized(spec_normalized(s)) =~= spec_normalized(s));
}

/// Character-by-character string equality, stated over the views.
pub fn str_eq(a: &str, b: &str) -> (r: bool)
    ensures
        r == (a@ == b@),
{
    let alen = a.unicode_len();
    let blen = b.unicode_len();
    if alen != blen {
        return false;
    }
    let mut i: usize = 0;
    while i < alen
        invariant
            0 <= i <= alen,
            alen == a@.len(),
            alen == b@.len(),
            forall|j: int| 0 <= j < i ==> a@[j] == b@[j],
        decreases alen - i,
    {
        if a.get_char(i) != b.get_char(i) {
            return false;
        }
        i = i + 1;
    }
    proof {
        assert(a@ =~= b@);
    }
    true
}

} // verus!
