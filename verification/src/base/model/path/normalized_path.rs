//! Paths through the repository tree, written like file system paths
//! (`/area/feature/foo`), with an optional version appendix on the last
//! segment (`name:version`).
use crate::text::{
    colon, slash, underscore,
    lemma_join_contains, lemma_join_prefix, lemma_remove_char_append, lemma_remove_char_join, lemma_join_suffix, lemma_remove_char_absent,
    lemma_split_join, lemma_trim_unchanged,
    contains_char_str, is_prefix, join, join_str, lowercase_of, remove_char, remove_char_str,
    spec_is_whitespace, split, split_str, starts_with_str, str_eq, to_lowercase, trim, trim_str,
    views,
};
use vstd::prelude::*;
use vstd::string::*;

verus! {

/// The segments that pushing the string `s` appends: underscores are removed,
/// the whole string is trimmed, split at `/`, and each piece is lowercased.
pub open spec fn normalize_segments(s: Seq<char>) -> Seq<Seq<char>> {
    split(trim(remove_char(s, '_')), '/').map_values(|x: Seq<char>| lowercase_of(x))
}

/// The segments of a path built by pushing each of `segs` in turn.
pub open spec fn renormalize(segs: Seq<Seq<char>>) -> Seq<Seq<char>>
    decreases segs.len(),
{
    if segs.len() == 0 {
        Seq::empty()
    } else {
        renormalize(segs.drop_last()) + normalize_segments(segs.last())
    }
}

/// The textual form of a path: its segments joined by `/`.
pub open spec fn path_string(segs: Seq<Seq<char>>) -> Seq<char> {
    join(segs, seq!['/'])
}

/// The version appendix of a segment: what follows its first `:`, up to a
/// second `:` if there is one.
pub open spec fn appendix_of(seg: Seq<char>) -> Option<Seq<char>> {
    if seg.contains(':') {
        Some(split(seg, ':')[1])
    } else {
        None
    }
}

/// The version appendix of the last segment, if any.
pub open spec fn spec_version_appendix(segs: Seq<Seq<char>>) -> Option<Seq<char>> {
    if segs.len() == 0 {
        None
    } else {
        appendix_of(segs.last())
    }
}

/// The segment without its appendix: what precedes its first `:`.
pub open spec fn without_appendix(seg: Seq<char>) -> Seq<char> {
    split(seg, ':')[0]
}

/// The path after `set_version_appendix(version)`.
///
/// With a version, the last segment is popped; if the segment before it
/// carries an appendix, the popped segment loses its own, and then
/// `segment:version` is pushed. Without a version, a last segment with an
/// appendix is replaced by its part before the `:`.
pub open spec fn spec_set_version_appendix(
    segs: Seq<Seq<char>>,
    version: Option<Seq<char>>,
) -> Seq<Seq<char>> {
    match version {
        Some(v) => {
            let popped = segs.drop_last();
            let last = segs.last();
            let base = if spec_version_appendix(popped) is Some {
                without_appendix(last)
            } else {
                last
            };
            popped + normalize_segments(base + seq![':'] + v)
        },
        None => {
            if spec_version_appendix(segs) is Some {
                segs.drop_last() + normalize_segments(without_appendix(segs.last()))
            } else {
                segs
            }
        },
    }
}

/// The segments after dropping one empty segment at the front and one at the
/// back (each only if present), then pushing each again.
pub open spec fn spec_trim_whitespaces(segs: Seq<Seq<char>>) -> Seq<Seq<char>> {
    let a = if segs.len() > 0 && segs[0].len() == 0 {
        segs.drop_first()
    } else {
        segs
    };
    let b = if a.len() > 0 && a.last().len() == 0 {
        a.drop_last()
    } else {
        a
    };
    renormalize(b)
}

/// The branch name of a path in git: the path without its empty segments at
/// either end; all segments but the last are prefixed with `_`. A last segment
/// `c:hash` names a commit and stands alone; a last segment `t:tag` names a
/// tag, which follows all other segments, each prefixed with `_`.
pub open spec fn spec_git_branch(segs: Seq<Seq<char>>) -> Seq<char> {
    let t = spec_trim_whitespaces(segs);
    let last = t.last();
    let prefixed = t.drop_last().map_values(|x: Seq<char>| seq!['_'] + x);
    if t.len() == 1 {
        last
    } else if last.contains(':') && without_appendix(last) == seq!['c'] {
        split(last, ':')[1]
    } else if last.contains(':') && without_appendix(last) == seq!['t'] {
        path_string(prefixed.push(split(last, ':')[1]))
    } else {
        path_string(prefixed.push(last))
    }
}

/// The path `l + r`, resolving `.` and `..` in `r` against `l`.
pub open spec fn spec_add(l: Seq<Seq<char>>, r: Seq<Seq<char>>) -> Seq<Seq<char>> {
    let start = if l.len() > 1 && l.last().len() == 0 {
        renormalize(l.drop_last())
    } else {
        l
    };
    add_from(start, l.len() as int, r, 0)
}

/// Processes the segments `r[i..]` onto the path `acc`, where `next` counts
/// the segments of `acc` that `..` may remove.
pub open spec fn add_from(
    acc: Seq<Seq<char>>,
    next: int,
    r: Seq<Seq<char>>,
    i: int,
) -> Seq<Seq<char>>
    decreases r.len() - i,
{
    if i < 0 || i >= r.len() {
        acc
    } else {
        let part = r[i];
        if part == seq!['.'] {
            add_from(acc, next, r, i + 1)
        } else if part == seq!['.', '.'] {
            if next > 0 {
                add_from(renormalize(acc.subrange(0, next - 1)), next - 1, r, i + 1)
            } else {
                add_from(acc, next, r, i + 1)
            }
        } else if part.len() == 0 {
            if i == 0 && r.len() > 1 {
                r
            } else if i == r.len() - 1 || acc.len() == 0 {
                add_from(acc + normalize_segments(part), next, r, i + 1)
            } else {
                add_from(acc, next, r, i + 1)
            }
        } else {
            add_from(acc + normalize_segments(part), next + 1, r, i + 1)
        }
    }
}

/// A segment that pushing leaves as it is: no `_` or `/`, no whitespace at
/// either end, and equal to its own lowercase.
pub open spec fn is_canonical_segment(seg: Seq<char>) -> bool {
    &&& !seg.contains('_')
    &&& !seg.contains('/')
    &&& lowercase_of(seg) == seg
    &&& (seg.len() > 0 ==> !spec_is_whitespace(seg[0]) && !spec_is_whitespace(seg.last()))
}

pub proof fn lemma_split_nonempty(s: Seq<char>, sep: char)
    ensures
        split(s, sep).len() >= 1,
    decreases s.len(),
{
    if s.len() > 0 {
        lemma_split_nonempty(s.drop_last(), sep);
    }
}

pub proof fn lemma_renormalize_len(segs: Seq<Seq<char>>)
    ensures
        renormalize(segs).len() >= segs.len(),
    decreases segs.len(),
{
    if segs.len() > 0 {
        lemma_renormalize_len(segs.drop_last());
        lemma_split_nonempty(trim(remove_char(segs.last(), '_')), '/');
    }
}

/// A path: a sequence of lowercase segments. The first segment is empty for an
/// absolute path, the last one is empty for a directory.
#[derive(Debug)]
pub struct NormalizedPath {
    path: Vec<String>,
}

impl View for NormalizedPath {
    type V = Seq<Seq<char>>;

    closed spec fn view(&self) -> Seq<Seq<char>> {
        views(self.path@)
    }
}

impl Clone for NormalizedPath {
    fn clone(&self) -> (r: Self)
        ensures
            r@ == self@,
    {
        let path = self.path.clone();
        assert(path@ =~= self.path@);
        NormalizedPath { path }
    }
}

impl PartialEq for NormalizedPath {
    fn eq(&self, other: &Self) -> (r: bool) {
        self.equals(other)
    }
}

impl vstd::std_specs::cmp::PartialEqSpecImpl for NormalizedPath {
    open spec fn obeys_eq_spec() -> bool {
        true
    }

    open spec fn eq_spec(&self, other: &Self) -> bool {
        self@ == other@
    }
}

impl NormalizedPath {
    pub fn new() -> (r: Self)
        ensures
            r@ == Seq::<Seq<char>>::empty(),
    {
        let r = NormalizedPath { path: Vec::new() };
        assert(r@ =~= Seq::<Seq<char>>::empty());
        r
    }

    /// Appends the segments of `path`: underscores removed, trimmed, split at
    /// `/`, lowercased.
    pub fn push(&mut self, path: &str)
        ensures
            final(self)@ == old(self)@ + normalize_segments(path@),
    {
        let removed = remove_char_str(path, '_');
        let trimmed = trim_str(removed.as_str());
        let pieces = split_str(trimmed.as_str(), '/');
        let ghost start = self@;
        let ghost target = normalize_segments(path@);
        let mut i: usize = 0;
        while i < pieces.len()
            invariant
                i <= pieces@.len(),
                views(pieces@) == split(trimmed@, '/'),
                trimmed@ == trim(remove_char(path@, '_')),
                target == normalize_segments(path@),
                target.len() == pieces@.len(),
                self@ == start + target.subrange(0, i as int),
            decreases pieces@.len() - i,
        {
            let lower = to_lowercase(pieces[i].as_str());
            let ghost before = self.path@;
            self.path.push(lower);
            assert(views(self.path@) == views(before).push(lower@));
            assert(target.subrange(0, i + 1) == target.subrange(0, i as int).push(target[i as int]));
            i = i + 1;
        }
        assert(target.subrange(0, i as int) == target);
    }

    /// The path parsed from `value`.
    pub fn from_str(value: &str) -> (r: Self)
        ensures
            r@ == normalize_segments(value@),
    {
        let mut r = Self::new();
        r.push(value);
        assert(r@ =~= normalize_segments(value@));
        r
    }

    /// The path built by pushing each of `value` in turn.
    pub fn from_vec(value: Vec<String>) -> (r: Self)
        ensures
            r@ == renormalize(views(value@)),
    {
        let mut r = Self::new();
        let mut i: usize = 0;
        while i < value.len()
            invariant
                i <= value@.len(),
                r@ == renormalize(views(value@.subrange(0, i as int))),
            decreases value@.len() - i,
        {
            assert(views(value@.subrange(0, i + 1)).drop_last() == views(value@.subrange(0, i as int)));
            r.push(value[i].as_str());
            i = i + 1;
        }
        assert(value@.subrange(0, value@.len() as int) == value@);
        r
    }

    /// The textual form: the segments joined by `/`.
    pub fn to_string(&self) -> (r: String)
        ensures
            r@ == path_string(self@),
    {
        join_str(&self.path, slash())
    }

    /// The segments of the path.
    pub fn segments(&self) -> (r: &Vec<String>)
        ensures
            views(r@) == self@,
    {
        &self.path
    }

    /// The segment at `index`.
    pub fn index(&self, index: usize) -> (r: &String)
        requires
            index < self@.len(),
        ensures
            r@ == self@[index as int],
    {
        &self.path[index]
    }

    /// The name of this path as a git branch.
    pub fn to_git_branch(&self) -> (r: String)
        requires
            spec_trim_whitespaces(self@).len() > 0,
        ensures
            r@ == spec_git_branch(self@),
    {
        let trimmed_path = self.trim_whitespaces();
        let path = &trimmed_path.path;
        let n = path.len();
        let ghost t = spec_trim_whitespaces(self@);
        assert(views(path@) == t);
        if n == 1 {
            return path[0].clone();
        }
        let last = path[n - 1].as_str();
        assert(last@ == t.last());
        let mut kind_commit = false;
        let mut kind_tag = false;
        let mut version = String::new();
        if contains_char_str(last, ':') {
            let pieces = split_str(last, ':');
            proof {
                lemma_split_nonempty(last@, ':');
                lemma_split_has_two(last@, ':');
            }
            let kind = pieces[0].as_str();
            let c = "c";
            let tg = "t";
            proof {
                reveal_strlit("c");
                reveal_strlit("t");
                assert(c@ =~= seq!['c']);
                assert(tg@ =~= seq!['t']);
            }
            kind_commit = str_eq(kind, c);
            kind_tag = str_eq(kind, tg);
            version = pieces[1].clone();
            assert(version@ == split(t.last(), ':')[1]);
            assert(kind@ == without_appendix(t.last()));
        }
        if kind_commit {
            return version;
        }
        let ghost prefixed = t.drop_last().map_values(|x: Seq<char>| seq!['_'] + x);
        let mut prefix: Vec<String> = Vec::new();
        let mut i: usize = 0;
        while i + 1 < n
            invariant
                n == path@.len(),
                views(path@) == t,
                prefixed == t.drop_last().map_values(|x: Seq<char>| seq!['_'] + x),
                n >= 2,
                i + 1 <= n,
                views(prefix@) == prefixed.subrange(0, i as int),
            decreases n - i,
        {
            let mut s = String::from_str(underscore());
            s.append(path[i].as_str());
            let ghost before = prefix@;
            prefix.push(s);
            assert(views(prefix@) == views(before).push(s@));
            assert(prefixed.subrange(0, i + 1) =~= prefixed.subrange(0, i as int).push(prefixed[i as int]));
            i = i + 1;
        }
        assert(prefixed.subrange(0, i as int) == prefixed);
        let ghost before = prefix@;
        if kind_tag {
            prefix.push(version);
        } else {
            prefix.push(path[n - 1].clone());
        }
        assert(views(prefix@) == views(before).push(views(prefix@).last()));
        join_str(&prefix, slash())
    }

    /// The version appendix of the last segment: what follows its `:`.
    pub fn get_version_appendix(&self) -> (r: Option<String>)
        ensures
            r matches Some(v) ==> spec_version_appendix(self@) == Some(v@),
            r is None ==> spec_version_appendix(self@) is None,
    {
        if self.path.len() == 0 {
            return None;
        }
        let last = self.path[self.path.len() - 1].as_str();
        if contains_char_str(last, ':') {
            let pieces = split_str(last, ':');
            proof {
                lemma_split_has_two(last@, ':');
            }
            Some(pieces[1].clone())
        } else {
            None
        }
    }

    /// Sets, replaces or removes the version appendix of the last segment.
    pub fn set_version_appendix(&mut self, version_appendix: Option<&str>)
        requires
            version_appendix is Some ==> old(self)@.len() > 0,
        ensures
            final(self)@ == spec_set_version_appendix(
                old(self)@,
                match version_appendix {
                    Some(v) => Some(v@),
                    None => None,
                },
            ),
    {
        match version_appendix {
            Some(version) => {
                let ghost before = self.path@;
                let last = self.path.pop().unwrap();
                assert(views(self.path@) == views(before).drop_last());
                let mut next = if self.get_version_appendix().is_some() {
                    let pieces = split_str(last.as_str(), ':');
                    proof {
                        lemma_split_nonempty(last@, ':');
                    }
                    pieces[0].clone()
                } else {
                    last
                };
                next.append(colon());
                next.append(version);
                self.push(next.as_str());
            },
            None => {
                if self.get_version_appendix().is_some() {
                    let ghost before = self.path@;
                    let last = self.path.pop().unwrap();
                    assert(views(self.path@) == views(before).drop_last());
                    let pieces = split_str(last.as_str(), ':');
                    proof {
                        lemma_split_nonempty(last@, ':');
                    }
                    self.push(pieces[0].as_str());
                }
            },
        }
    }

    /// The path of the segments `n_left..n_right`, each pushed again.
    pub fn strip_n(&self, n_left: usize, n_right: usize) -> (r: NormalizedPath)
        requires
            n_left <= n_right <= self@.len(),
        ensures
            r@ == renormalize(self@.subrange(n_left as int, n_right as int)),
    {
        let mut v: Vec<String> = Vec::new();
        let mut i = n_left;
        while i < n_right
            invariant
                n_left <= i <= n_right <= self.path@.len(),
                views(v@) == views(self.path@).subrange(n_left as int, i as int),
            decreases n_right - i,
        {
            let ghost before = v@;
            let item = self.path[i].clone();
            v.push(item);
            assert(views(v@) == views(before).push(item@));
            assert(views(self.path@).subrange(n_left as int, i + 1) =~= views(self.path@).subrange(n_left as int, i as int).push(views(self.path@)[i as int]));
            i = i + 1;
        }
        Self::from_vec(v)
    }

    /// The path without its first `n` segments.
    pub fn strip_n_left(&self, n: usize) -> (r: NormalizedPath)
        requires
            n <= self@.len(),
        ensures
            r@ == renormalize(self@.subrange(n as int, self@.len() as int)),
    {
        self.strip_n(n, self.path.len())
    }

    /// The path without a version appendix.
    pub fn strip_version(&self) -> (r: NormalizedPath)
        ensures
            r@ == spec_set_version_appendix(self@, None),
    {
        let mut new = self.clone();
        new.set_version_appendix(None);
        new
    }

    /// The first `n` segments.
    pub fn strip_n_right(&self, n: usize) -> (r: NormalizedPath)
        requires
            n <= self@.len(),
        ensures
            r@ == renormalize(self@.subrange(0, n as int)),
    {
        self.strip_n(0, n)
    }

    /// The path without an empty first and an empty last segment.
    pub fn trim_whitespaces(&self) -> (r: NormalizedPath)
        ensures
            r@ == spec_trim_whitespaces(self@),
    {
        let mut new_path = self.path.clone();
        assert(new_path@ =~= self.path@);
        if new_path.len() > 0 && new_path[0].unicode_len() == 0 {
            let ghost before = new_path@;
            new_path.remove(0);
            assert(views(new_path@) =~= views(before).drop_first());
        }
        if new_path.len() > 0 && new_path[new_path.len() - 1].unicode_len() == 0 {
            let ghost before = new_path@;
            new_path.remove(new_path.len() - 1);
            assert(views(new_path@) =~= views(before).drop_last());
        }
        Self::from_vec(new_path)
    }

    /// The path with `value` inserted before the segment at `index`, each
    /// segment pushed again.
    pub fn replace(&self, index: usize, value: String) -> (r: NormalizedPath)
        requires
            index <= self@.len(),
        ensures
            r@ == renormalize(self@.insert(index as int, value@)),
    {
        let mut new_path = self.path.clone();
        assert(new_path@ =~= self.path@);
        new_path.insert(index, value);
        assert(views(new_path@) =~= self@.insert(index as int, value@));
        Self::from_vec(new_path)
    }

    /// The first segment as a path of its own.
    pub fn first(&self) -> (r: Option<NormalizedPath>)
        ensures
            self@.len() == 0 ==> r is None,
            self@.len() > 0 ==> (r matches Some(p) && p@ == normalize_segments(self@[0])),
    {
        if self.path.len() == 0 {
            None
        } else {
            Some(Self::from_str(self.path[0].as_str()))
        }
    }

    /// The last segment.
    pub fn last(&self) -> (r: Option<&String>)
        ensures
            self@.len() == 0 ==> r is None,
            self@.len() > 0 ==> (r matches Some(s) && s@ == self@.last()),
    {
        if self.path.len() == 0 {
            None
        } else {
            Some(&self.path[self.path.len() - 1])
        }
    }

    pub fn is_empty(&self) -> (r: bool)
        ensures
            r == (self@.len() == 0),
    {
        self.path.len() == 0
    }

    /// Each segment as a path of its own.
    pub fn iter(&self) -> (r: Vec<NormalizedPath>)
        ensures
            r@.len() == self@.len(),
            forall|i: int| 0 <= i < r@.len() ==> #[trigger] r@[i]@ == normalize_segments(self@[i]),
    {
        let mut out: Vec<NormalizedPath> = Vec::new();
        let mut i: usize = 0;
        while i < self.path.len()
            invariant
                i <= self.path@.len(),
                out@.len() == i,
                forall|k: int| 0 <= k < i ==> #[trigger] out@[k]@ == normalize_segments(self@[k]),
            decreases self.path@.len() - i,
        {
            out.push(Self::from_str(self.path[i].as_str()));
            i = i + 1;
        }
        out
    }

    /// The segments, in order.
    pub fn iter_segments(&self) -> (r: &Vec<String>)
        ensures
            views(r@) == self@,
    {
        &self.path
    }

    /// The segment at `index` as a path of its own.
    pub fn get(&self, index: usize) -> (r: Option<NormalizedPath>)
        ensures
            index >= self@.len() ==> r is None,
            index < self@.len() ==> (r matches Some(p) && p@ == normalize_segments(self@[index as int])),
    {
        if index < self.path.len() {
            Some(Self::from_str(self.path[index].as_str()))
        } else {
            None
        }
    }

    /// Whether the textual form of `prefix` is a prefix of the textual form of
    /// this path.
    pub fn starts_with(&self, prefix: &NormalizedPath) -> (r: bool)
        ensures
            r == is_prefix(path_string(prefix@), path_string(self@)),
    {
        let me = self.to_string();
        let other = prefix.to_string();
        starts_with_str(me.as_str(), other.as_str())
    }

    /// Whether both paths end in the same segment (or both are empty).
    pub fn last_is(&self, suffix: &NormalizedPath) -> (r: bool)
        ensures
            r == (if self@.len() == 0 || suffix@.len() == 0 {
                self@.len() == 0 && suffix@.len() == 0
            } else {
                self@.last() == suffix@.last()
            }),
    {
        match (self.last(), suffix.last()) {
            (None, None) => true,
            (Some(a), Some(b)) => str_eq(a.as_str(), b.as_str()),
            _ => false,
        }
    }

    pub fn len(&self) -> (r: usize)
        ensures
            r == self@.len(),
    {
        self.path.len()
    }

    /// The path with an empty last segment appended, each segment pushed
    /// again.
    pub fn as_dir(&self) -> (r: NormalizedPath)
        ensures
            r@ == renormalize(self@.push(Seq::empty())),
    {
        let mut new_path = self.path.clone();
        assert(new_path@ =~= self.path@);
        new_path.push(String::new());
        assert(views(new_path@) =~= self@.push(Seq::empty()));
        Self::from_vec(new_path)
    }

    /// The path with an empty first segment prepended, each segment pushed
    /// again.
    pub fn as_absolute(&self) -> (r: NormalizedPath)
        ensures
            r@ == renormalize(seq![Seq::<char>::empty()] + self@),
    {
        let mut new_path = self.path.clone();
        assert(new_path@ =~= self.path@);
        new_path.insert(0, String::new());
        assert(views(new_path@) =~= seq![Seq::<char>::empty()] + self@);
        Self::from_vec(new_path)
    }

    /// Whether the path has more than one segment and ends in an empty one.
    pub fn is_dir(&self) -> (r: bool)
        ensures
            r == (self@.len() > 1 && self@.last().len() == 0),
    {
        self.path.len() > 1 && self.path[self.path.len() - 1].unicode_len() == 0
    }

    /// Whether the first segment, read as a path, prints as the empty string.
    pub fn is_absolute(&self) -> (r: bool)
        ensures
            r == (self@.len() > 0 && path_string(normalize_segments(self@[0])).len() == 0),
    {
        if self.path.len() == 0 {
            return false;
        }
        let first = Self::from_str(self.path[0].as_str());
        first.to_string().unicode_len() == 0
    }

    /// Whether both paths have the same segments.
    pub fn equals(&self, other: &NormalizedPath) -> (r: bool)
        ensures
            r == (self@ == other@),
    {
        assert(self@.len() == self.path@.len() && other@.len() == other.path@.len());
        if self.path.len() != other.path.len() {
            return false;
        }
        let mut i: usize = 0;
        while i < self.path.len()
            invariant
                self.path@.len() == other.path@.len(),
                i <= self.path@.len(),
                forall|k: int| 0 <= k < i ==> self@[k] == other@[k],
            decreases self.path@.len() - i,
        {
            if !str_eq(self.path[i].as_str(), other.path[i].as_str()) {
                assert(self@[i as int] != other@[i as int]);
                return false;
            }
            i = i + 1;
        }
        assert(self@ =~= other@);
        true
    }

    /// `self + rhs`: the segments of `rhs` appended to this path, where `.`
    /// stays, `..` goes up one segment, and a `rhs` that starts with an empty
    /// segment (an absolute path) replaces this path.
    pub fn add(self, rhs: NormalizedPath) -> (r: NormalizedPath)
        requires
            self@.len() + rhs@.len() <= usize::MAX,
        ensures
            r@ == spec_add(self@, rhs@),
    {
        let mut next_index = self.len();
        let ghost l = self@;
        let mut new_path = self;
        if new_path.is_dir() {
            new_path = new_path.strip_n_right(new_path.len() - 1);
        }
        proof {
            lemma_renormalize_len(l.drop_last());
            assert(l.subrange(0, l.len() - 1) == l.drop_last());
        }
        let dot = ".";
        let dotdot = "..";
        proof {
            reveal_strlit(".");
            reveal_strlit("..");
            assert(dot@ =~= seq!['.']);
            assert(dotdot@ =~= seq!['.', '.']);
        }
        let mut i: usize = 0;
        let n = rhs.len();
        while i < n
            invariant
                n == rhs@.len(),
                i <= n,
                next_index <= new_path@.len() + 1,
                next_index <= l.len() + i,
                l.len() + n <= usize::MAX,
                dot@ == seq!['.'],
                dotdot@ == seq!['.', '.'],
                add_from(new_path@, next_index as int, rhs@, i as int) == spec_add(l, rhs@),
            decreases n - i,
        {
            let part = rhs.path[i].as_str();
            let ghost p = rhs@[i as int];
            assert(part@ == p);
            if str_eq(part, dot) {
            } else if str_eq(part, dotdot) {
                if next_index > 0 {
                    next_index = next_index - 1;
                    proof {
                        lemma_renormalize_len(new_path@.subrange(0, next_index as int));
                    }
                    new_path = new_path.strip_n_right(next_index);
                }
            } else if part.unicode_len() == 0 {
                if i == 0 && n > 1 {
                    return rhs.clone();
                } else if i == n - 1 || new_path.is_empty() {
                    new_path.push(part);
                }
            } else {
                new_path.push(part);
                next_index = next_index + 1;
                proof {
                    lemma_split_nonempty(trim(remove_char(p, '_')), '/');
                }
            }
            i = i + 1;
        }
        new_path
    }
}

pub proof fn lemma_split_has_two(s: Seq<char>, sep: char)
    requires
        s.contains(sep),
    ensures
        split(s, sep).len() >= 2,
    decreases s.len(),
{
    if s.len() > 0 {
        lemma_split_nonempty(s.drop_last(), sep);
        if s.last() != sep {
            let k = choose|k: int| 0 <= k < s.len() && s[k] == sep;
            assert(s.drop_last()[k] == sep);
            lemma_split_has_two(s.drop_last(), sep);
        }
    }
}

/// Printing a path and parsing the text gives the path back, when the path has
/// a segment and every segment is canonical (already in the form that parsing
/// produces).
pub proof fn law_parse_print_roundtrip(segs: Seq<Seq<char>>)
    requires
        segs.len() >= 1,
        forall|i: int| 0 <= i < segs.len() ==> is_canonical_segment(#[trigger] segs[i]),
    ensures
        normalize_segments(path_string(segs)) == segs,
{
    let s = path_string(segs);
    let sl = seq!['/'];
    assert(!sl.contains('_')) by {
        if sl.contains('_') {
            let k = choose|k: int| 0 <= k < sl.len() && sl[k] == '_';
        }
    }
    lemma_join_contains(segs, sl, '_');
    lemma_remove_char_absent(s, '_');
    lemma_join_prefix(segs, sl);
    lemma_join_suffix(segs, sl);
    if s.len() > 0 {
        if segs[0].len() > 0 {
            assert(s[0] == s.subrange(0, segs[0].len() as int)[0]);
            assert(s[0] == segs[0][0]);
        } else if segs.len() == 1 {
            assert(s == segs[0]);
        }
        if segs.last().len() == 0 && segs.len() == 1 {
            assert(s == segs[0]);
        }
    }
    lemma_trim_unchanged(s);
    lemma_split_join(segs, '/');
    assert(split(s, '/') == segs);
    assert(normalize_segments(s) =~= segs);
}

/// Adding a path that starts with an empty segment and has more segments
/// (an absolute path) gives that path.
pub proof fn law_add_absolute(l: Seq<Seq<char>>, r: Seq<Seq<char>>)
    requires
        r.len() > 1,
        r[0].len() == 0,
    ensures
        spec_add(l, r) == r,
{
    let start = if l.len() > 1 && l.last().len() == 0 {
        renormalize(l.drop_last())
    } else {
        l
    };
    assert(r[0] != seq!['.']);
    assert(r[0] != seq!['.', '.']);
    assert(add_from(start, l.len() as int, r, 0) == r);
}

/// Segments `.` leave a path that does not end in a directory marker as it
/// is.
pub proof fn law_add_current_dir(l: Seq<Seq<char>>, r: Seq<Seq<char>>)
    requires
        !(l.len() > 1 && l.last().len() == 0),
        forall|i: int| 0 <= i < r.len() ==> #[trigger] r[i] == seq!['.'],
    ensures
        spec_add(l, r) == l,
{
    lemma_add_dots(l, l.len() as int, r, 0);
}

proof fn lemma_add_dots(acc: Seq<Seq<char>>, next: int, r: Seq<Seq<char>>, i: int)
    requires
        0 <= i <= r.len(),
        forall|k: int| 0 <= k < r.len() ==> #[trigger] r[k] == seq!['.'],
    ensures
        add_from(acc, next, r, i) == acc,
    decreases r.len() - i,
{
    if i < r.len() {
        assert(r[i] == seq!['.']);
        lemma_add_dots(acc, next, r, i + 1);
    }
}

/// Pushing canonical segments again leaves them as they are.
pub proof fn lemma_renormalize_canonical(segs: Seq<Seq<char>>)
    requires
        forall|i: int| 0 <= i < segs.len() ==> is_canonical_segment(#[trigger] segs[i]),
    ensures
        renormalize(segs) == segs,
    decreases segs.len(),
{
    if segs.len() > 0 {
        let init = segs.drop_last();
        assert forall|i: int| 0 <= i < init.len() implies is_canonical_segment(#[trigger] init[i]) by {
            assert(init[i] == segs[i]);
        }
        lemma_renormalize_canonical(init);
        let one = seq![segs.last()];
        assert(is_canonical_segment(one[0])) by {
            assert(segs[segs.len() - 1] == segs.last());
        }
        law_parse_print_roundtrip(one);
        assert(path_string(one) == segs.last());
        assert(renormalize(segs) =~= segs);
    }
}

/// Going down into a canonical segment and back up with `..` returns to the
/// starting path, when that path is canonical and not in directory form.
pub proof fn law_add_then_parent(p: Seq<Seq<char>>, x: Seq<char>)
    requires
        forall|i: int| 0 <= i < p.len() ==> is_canonical_segment(#[trigger] p[i]),
        !(p.len() > 1 && p.last().len() == 0),
        is_canonical_segment(x),
        x.len() > 0,
        x != seq!['.'],
        x != seq!['.', '.'],
    ensures
        spec_add(spec_add(p, seq![x]), seq![seq!['.', '.']]) == p,
{
    let one = seq![x];
    law_parse_print_roundtrip(one);
    assert(path_string(one) == x);
    assert(normalize_segments(x) == one);
    let q = spec_add(p, one);
    assert(add_from(p + one, p.len() + 1int, one, 1) == p + one);
    assert(q == p + one);
    assert(q.last() == x);
    let up = seq![seq!['.', '.']];
    assert(up[0] != seq!['.']) by {
        assert(up[0].len() != seq!['.'].len());
    }
    assert(spec_add(q, up) == add_from(q, q.len() as int, up, 0));
    assert(add_from(q, q.len() as int, up, 0) == add_from(renormalize(q.subrange(0, q.len() - 1)), q.len() - 1, up, 1));
    assert(add_from(renormalize(q.subrange(0, p.len() as int)), p.len() as int, up, 1) == renormalize(q.subrange(0, p.len() as int)));
    assert(q.subrange(0, p.len() as int) =~= p);
    lemma_renormalize_canonical(p);
}

/// Setting a version on a path whose segments carry none, and stripping it
/// again, gives the path back; in between the version reads back and the
/// length stays. Holds where the last segment, alone and with `:version`,
/// reads back as itself (canonical text: trimmed, lowercase, without `_` or
/// `/`).
pub proof fn law_set_then_strip_version(p: Seq<Seq<char>>, v: Seq<char>)
    requires
        p.len() > 0,
        forall|i: int| 0 <= i < p.len() ==> !(#[trigger] p[i]).contains(':'),
        !v.contains(':'),
        normalize_segments(p.last()) == seq![p.last()],
        normalize_segments(p.last() + seq![':'] + v) == seq![p.last() + seq![':'] + v],
    ensures
        spec_version_appendix(spec_set_version_appendix(p, Some(v))) == Some(v),
        spec_set_version_appendix(p, Some(v)).len() == p.len(),
        spec_set_version_appendix(spec_set_version_appendix(p, Some(v)), None) == p,
{
    let popped = p.drop_last();
    let last = p.last();
    assert(!last.contains(':')) by {
        assert(p[p.len() - 1] == last);
    }
    if popped.len() > 0 {
        assert(popped.last() == p[p.len() - 2]);
        assert(!popped.last().contains(':'));
    }
    assert(spec_version_appendix(popped) is None);
    let seg = last + seq![':'] + v;
    let set = spec_set_version_appendix(p, Some(v));
    assert(set == popped + seq![seg]);
    let parts = seq![last, v];
    assert(join(parts, seq![':']) =~= seg) by {
        assert(parts.drop_last() =~= seq![last]);
        assert(parts.drop_last().len() == 1);
        assert(join(parts.drop_last(), seq![':']) == last);
        assert(parts.last() == v);
        assert(join(parts, seq![':']) == join(parts.drop_last(), seq![':']) + seq![':'] + parts.last());
    }
    assert forall|i: int| 0 <= i < parts.len() implies !(#[trigger] parts[i]).contains(':') by {}
    lemma_split_join(parts, ':');
    assert(split(seg, ':') == parts);
    assert(seg[last.len() as int] == ':');
    assert(seg.contains(':'));
    assert(set.last() == seg);
    assert(appendix_of(seg) == Some(v));
    assert(without_appendix(seg) == last);
    assert(set.drop_last() =~= popped);
    assert(popped + seq![last] =~= p);
}

/// Parsing the git branch name of a path gives the path without its empty
/// end segments, when all segments are canonical and none holds `:`.
pub proof fn law_git_branch_roundtrip(segs: Seq<Seq<char>>)
    requires
        forall|i: int| 0 <= i < segs.len() ==> is_canonical_segment(#[trigger] segs[i]),
        forall|i: int| 0 <= i < segs.len() ==> !(#[trigger] segs[i]).contains(':'),
        spec_trim_whitespaces(segs).len() > 0,
    ensures
        normalize_segments(spec_git_branch(segs)) == spec_trim_whitespaces(segs),
{
    let a = if segs.len() > 0 && segs[0].len() == 0 {
        segs.drop_first()
    } else {
        segs
    };
    let b = if a.len() > 0 && a.last().len() == 0 {
        a.drop_last()
    } else {
        a
    };
    assert forall|i: int| 0 <= i < b.len() implies is_canonical_segment(#[trigger] b[i]) && !b[i].contains(':') by {
        if segs.len() > 0 && segs[0].len() == 0 {
            assert(b[i] == segs[i + 1]);
        } else {
            assert(b[i] == segs[i]);
        }
    }
    lemma_renormalize_canonical(b);
    let t = spec_trim_whitespaces(segs);
    assert(t == b);
    assert(!t.last().contains(':')) by {
        assert(t[t.len() - 1] == t.last());
    }
    if t.len() == 1 {
        law_parse_print_roundtrip(t);
        assert(path_string(t) == t[0]);
    } else {
        let f = |x: Seq<char>| seq!['_'] + x;
        let prefixed = t.drop_last().map_values(f);
        let parts = prefixed.push(t.last());
        let g = |x: Seq<char>| remove_char(x, '_');
        let sl = seq!['/'];
        assert(!sl.contains('_')) by {
            if sl.contains('_') {
                let k = choose|k: int| 0 <= k < sl.len() && sl[k] == '_';
            }
        }
        lemma_remove_char_join(parts, sl, '_');
        assert forall|i: int| 0 <= i < parts.len() implies #[trigger] g(parts[i]) == t[i] by {
            assert(!t[i].contains('_'));
            lemma_remove_char_absent(t[i], '_');
            if i < t.len() - 1 {
                assert(parts[i] == seq!['_'] + t[i]);
                lemma_remove_char_append(seq!['_'], t[i], '_');
                assert(remove_char(seq!['_'], '_') == remove_char(Seq::<char>::empty(), '_')) by {
                    assert(seq!['_'].drop_last() =~= Seq::<char>::empty());
                }
                assert(remove_char(seq!['_'], '_') + t[i] =~= t[i]);
            } else {
                assert(parts[i] == t.last());
            }
        }
        assert(parts.map_values(g) =~= t);
        law_parse_print_roundtrip(t);
        lemma_join_contains(t, sl, '_');
        lemma_remove_char_absent(path_string(t), '_');
        assert(remove_char(spec_git_branch(segs), '_') == remove_char(path_string(t), '_'));
    }
}

/// Conversion of a value into a path.
pub trait ToNormalizedPath {
    fn to_normalized_path(&self) -> NormalizedPath;
}

/// Conversion of a collection into paths.
pub trait ToNormalizedPaths {
    fn to_normalized_paths(&self) -> Vec<NormalizedPath>;
}

impl ToNormalizedPath for String {
    fn to_normalized_path(&self) -> (r: NormalizedPath)
        ensures
            r@ == normalize_segments(self@),
    {
        NormalizedPath::from_str(self.as_str())
    }
}

} // verus!
