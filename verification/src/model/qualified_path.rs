//! Paths through the repository tree that also say which version of the
//! node they point to: its head, a commit (`c:hash`) or a tag (`t:tag`).
use crate::text::{
    ascii_lower, lemma_remove_char_absent, lemma_split_append_plain, lemma_trim_unchanged,
    spec_is_whitespace,
    colon, is_prefix, join, join_str, lowercase_of, remove_char, remove_char_str, slash, split,
    split_str, starts_with_str, str_eq, to_lowercase, trim, trim_str, underscore, views,
};
use vstd::prelude::*;
use vstd::string::*;

verus! {

/// A commit, by its full hash.
#[derive(Debug)]
pub struct CommitHash {
    full_hash: String,
}

impl View for CommitHash {
    type V = Seq<char>;

    closed spec fn view(&self) -> Seq<char> {
        self.full_hash@
    }
}

impl Clone for CommitHash {
    fn clone(&self) -> (r: Self)
        ensures
            r@ == self@,
    {
        CommitHash { full_hash: self.full_hash.clone() }
    }
}

impl PartialEq for CommitHash {
    fn eq(&self, other: &Self) -> (r: bool) {
        self.equals(other)
    }
}

impl vstd::std_specs::cmp::PartialEqSpecImpl for CommitHash {
    open spec fn obeys_eq_spec() -> bool {
        true
    }

    open spec fn eq_spec(&self, other: &Self) -> bool {
        self@ == other@
    }
}

impl CommitHash {
    pub fn new(full_hash: String) -> (r: Self)
        ensures
            r@ == full_hash@,
    {
        CommitHash { full_hash }
    }

    pub fn get_full_hash(&self) -> (r: &String)
        ensures
            r@ == self@,
    {
        &self.full_hash
    }

    /// The characters of the first eight bytes of the hash.
    pub fn get_short_hash(&self) -> (r: String)
        requires
            has_short_hash(self@),
        ensures
            r@ == self@.subrange(0, short_end(self@)),
    {
        crate::text::utf8_prefix(self.full_hash.as_str(), 8)
    }

    pub fn equals(&self, other: &CommitHash) -> (r: bool)
        ensures
            r == (self@ == other@),
    {
        str_eq(self.full_hash.as_str(), other.full_hash.as_str())
    }
}

/// What a path points to, in terms of characters.
pub enum VersionPointerView {
    Head,
    Commit(Seq<char>),
    Tag(Seq<char>),
}

/// The version a path points to.
#[derive(Debug)]
pub enum VersionPointer {
    Head,
    Commit(CommitHash),
    Tag(String),
}

impl View for VersionPointer {
    type V = VersionPointerView;

    open spec fn view(&self) -> VersionPointerView {
        match self {
            VersionPointer::Head => VersionPointerView::Head,
            VersionPointer::Commit(c) => VersionPointerView::Commit(c@),
            VersionPointer::Tag(t) => VersionPointerView::Tag(t@),
        }
    }
}

impl Clone for VersionPointer {
    fn clone(&self) -> (r: Self)
        ensures
            r@ == self@,
    {
        match self {
            VersionPointer::Head => VersionPointer::Head,
            VersionPointer::Commit(c) => VersionPointer::Commit(c.clone()),
            VersionPointer::Tag(t) => VersionPointer::Tag(t.clone()),
        }
    }
}

impl PartialEq for VersionPointer {
    fn eq(&self, other: &Self) -> (r: bool) {
        self.equals(other)
    }
}

impl vstd::std_specs::cmp::PartialEqSpecImpl for VersionPointer {
    open spec fn obeys_eq_spec() -> bool {
        true
    }

    open spec fn eq_spec(&self, other: &Self) -> bool {
        self@ == other@
    }
}

impl VersionPointer {
    pub fn equals(&self, other: &VersionPointer) -> (r: bool)
        ensures
            r == (self@ == other@),
    {
        match (self, other) {
            (VersionPointer::Head, VersionPointer::Head) => true,
            (VersionPointer::Commit(a), VersionPointer::Commit(b)) => a.equals(b),
            (VersionPointer::Tag(a), VersionPointer::Tag(b)) => str_eq(a.as_str(), b.as_str()),
            _ => false,
        }
    }
}

/// A path: its segments and the version it points to.
pub struct QPathView {
    pub segments: Seq<Seq<char>>,
    pub head: VersionPointerView,
}

/// The pieces that pushing `s` reads: underscores removed, the whole string
/// trimmed, split at `/`.
pub open spec fn pieces_of(s: Seq<char>) -> Seq<Seq<char>> {
    split(trim(remove_char(s, '_')), '/')
}

/// One piece pushed: `t:tag` sets a tag, `c:hash` sets a commit, anything
/// else is appended lowercased and points the path at its head.
pub open spec fn push_piece(st: QPathView, piece: Seq<char>) -> QPathView {
    if is_prefix(seq!['t', ':'], piece) {
        QPathView { segments: st.segments, head: VersionPointerView::Tag(piece.subrange(2, piece.len() as int)) }
    } else if is_prefix(seq!['c', ':'], piece) {
        QPathView {
            segments: st.segments,
            head: VersionPointerView::Commit(piece.subrange(2, piece.len() as int)),
        }
    } else {
        QPathView { segments: st.segments.push(lowercase_of(piece)), head: VersionPointerView::Head }
    }
}

pub open spec fn push_pieces(st: QPathView, pieces: Seq<Seq<char>>) -> QPathView
    decreases pieces.len(),
{
    if pieces.len() == 0 {
        st
    } else {
        push_piece(push_pieces(st, pieces.drop_last()), pieces.last())
    }
}

/// The path after pushing the string `s`.
pub open spec fn spec_push(st: QPathView, s: Seq<char>) -> QPathView {
    push_pieces(st, pieces_of(s))
}

pub open spec fn empty_view() -> QPathView {
    QPathView { segments: Seq::empty(), head: VersionPointerView::Head }
}

/// The path built by pushing each of `segs` in turn onto an empty path.
pub open spec fn spec_from_segments(segs: Seq<Seq<char>>) -> QPathView
    decreases segs.len(),
{
    if segs.len() == 0 {
        empty_view()
    } else {
        spec_push(spec_from_segments(segs.drop_last()), segs.last())
    }
}

/// The path parsed from the string `s`.
pub open spec fn spec_from_str(s: Seq<char>) -> QPathView {
    spec_push(empty_view(), s)
}

/// The segments without an empty first and an empty last segment, each
/// pushed again.
pub open spec fn spec_trim(segs: Seq<Seq<char>>) -> QPathView {
    let a = if segs.len() > 0 && segs[0].len() == 0 {
        segs.drop_first()
    } else {
        segs
    };
    let b = if a.len() > 0 && a.last().len() == 0 {
        a.drop_last()
    } else {
        a
    };
    spec_from_segments(b)
}

/// The git object that a path names: the commit hash for a commit; else the
/// trimmed segments joined by `/`, all but the last prefixed with `_`, and for
/// a tag also the last prefixed, followed by the tag.
pub open spec fn spec_git_object(v: QPathView) -> Seq<char> {
    match v.head {
        VersionPointerView::Commit(c) => c,
        _ => {
            let t = spec_trim(v.segments).segments;
            let prefixed = t.drop_last().map_values(|x: Seq<char>| seq!['_'] + x);
            if t.len() == 1 {
                t[0]
            } else {
                match v.head {
                    VersionPointerView::Tag(tag) => join(prefixed.push(seq!['_'] + t.last()).push(tag), seq!['/']),
                    _ => join(prefixed.push(t.last()), seq!['/']),
                }
            }
        },
    }
}

/// Processes the segments `r[i..]` onto `acc`; `next` counts the segments that
/// `..` may remove. The result has the segments of the sum; its head is set
/// afterwards.
pub open spec fn qadd_from(acc: QPathView, next: int, r: Seq<Seq<char>>, i: int) -> Option<
    QPathView,
>
    decreases r.len() - i,
{
    if i < 0 || i >= r.len() {
        Some(acc)
    } else {
        let part = r[i];
        if part == seq!['.'] {
            qadd_from(acc, next, r, i + 1)
        } else if part == seq!['.', '.'] {
            if next > 0 {
                qadd_from(
                    spec_from_segments(acc.segments.subrange(0, next - 1)),
                    next - 1,
                    r,
                    i + 1,
                )
            } else {
                qadd_from(acc, next, r, i + 1)
            }
        } else if part.len() == 0 {
            if i == 0 && r.len() > 1 {
                None
            } else if i == r.len() - 1 || acc.segments.len() == 0 {
                qadd_from(spec_push(acc, part), next, r, i + 1)
            } else {
                qadd_from(acc, next, r, i + 1)
            }
        } else {
            qadd_from(spec_push(acc, part), next + 1, r, i + 1)
        }
    }
}

/// Whether resolving `r[i..]` onto `acc` never goes up (`..`) past the end of
/// the path built so far. Pushing a segment that reads as `t:tag` or `c:hash`
/// adds no segment, and going up past the end is not defined.
pub open spec fn qadd_defined(acc: QPathView, next: int, r: Seq<Seq<char>>, i: int) -> bool
    decreases r.len() - i,
{
    if i < 0 || i >= r.len() {
        true
    } else {
        let part = r[i];
        if part == seq!['.'] {
            qadd_defined(acc, next, r, i + 1)
        } else if part == seq!['.', '.'] {
            if next > 0 {
                next - 1 <= acc.segments.len() && qadd_defined(
                    spec_from_segments(acc.segments.subrange(0, next - 1)),
                    next - 1,
                    r,
                    i + 1,
                )
            } else {
                qadd_defined(acc, next, r, i + 1)
            }
        } else if part.len() == 0 {
            if i == 0 && r.len() > 1 {
                true
            } else if i == r.len() - 1 || acc.segments.len() == 0 {
                qadd_defined(spec_push(acc, part), next, r, i + 1)
            } else {
                qadd_defined(acc, next, r, i + 1)
            }
        } else {
            qadd_defined(spec_push(acc, part), next + 1, r, i + 1)
        }
    }
}

/// Whether `l + r` is defined: it never goes up past the end of the path.
pub open spec fn spec_qadd_defined(l: QPathView, r: QPathView) -> bool {
    let start = if l.segments.len() > 1 && l.segments.last().len() == 0 {
        spec_from_segments(l.segments.drop_last())
    } else {
        l
    };
    qadd_defined(start, l.segments.len() as int, r.segments, 0)
}

/// Adding a path without `..` segments is defined.
pub proof fn lemma_qadd_defined_without_parent(acc: QPathView, next: int, r: Seq<Seq<char>>, i: int)
    requires
        forall|k: int| 0 <= k < r.len() ==> #[trigger] r[k] != seq!['.', '.'],
    ensures
        qadd_defined(acc, next, r, i),
    decreases r.len() - i,
{
    if 0 <= i < r.len() {
        let part = r[i];
        if part == seq!['.'] {
            lemma_qadd_defined_without_parent(acc, next, r, i + 1);
        } else if part.len() == 0 {
            lemma_qadd_defined_without_parent(acc, next, r, i + 1);
            lemma_qadd_defined_without_parent(spec_push(acc, part), next, r, i + 1);
        } else {
            lemma_qadd_defined_without_parent(spec_push(acc, part), next + 1, r, i + 1);
        }
    }
}

/// The path `l + r`: the segments of `r` resolved against `l` (`.` stays, `..`
/// goes up, a leading empty segment with more segments makes `r` replace `l`),
/// pointing to what `r` points to.
pub open spec fn spec_qadd(l: QPathView, r: QPathView) -> QPathView {
    let start = if l.segments.len() > 1 && l.segments.last().len() == 0 {
        spec_from_segments(l.segments.drop_last())
    } else {
        l
    };
    match qadd_from(start, l.segments.len() as int, r.segments, 0) {
        Some(v) => QPathView { segments: v.segments, head: r.head },
        None => r,
    }
}

pub proof fn lemma_push_pieces_len(st: QPathView, pieces: Seq<Seq<char>>)
    ensures
        st.segments.len() <= push_pieces(st, pieces).segments.len() <= st.segments.len()
            + pieces.len(),
    decreases pieces.len(),
{
    if pieces.len() > 0 {
        lemma_push_pieces_len(st, pieces.drop_last());
    }
}

pub proof fn lemma_pieces_len(s: Seq<char>)
    ensures
        pieces_of(s).len() >= 1,
{
    crate::base::model::path::normalized_path::lemma_split_nonempty(
        trim(remove_char(s, '_')),
        '/',
    );
}

/// A word of lowercase ASCII letters.
pub open spec fn is_plain_word(w: Seq<char>) -> bool {
    w.len() > 0 && forall|i: int| 0 <= i < w.len() ==> 'a' <= #[trigger] w[i] && w[i] <= 'z'
}

/// A plain word parses to a path of that one segment, pointing to the head.
pub proof fn lemma_plain_word(w: Seq<char>)
    requires
        is_plain_word(w),
    ensures
        spec_from_str(w).segments == seq![w],
        spec_from_str(w).head == VersionPointerView::Head,
{
    assert(!w.contains('_'));
    assert(!w.contains('/'));
    lemma_remove_char_absent(w, '_');
    assert(!spec_is_whitespace(w[0]) && !spec_is_whitespace(w.last()));
    lemma_trim_unchanged(w);
    let e = Seq::<char>::empty();
    lemma_split_append_plain(e, w, '/');
    assert(e + w =~= w);
    assert(split(e, '/') =~= seq![e]);
    assert(split(w, '/') =~= seq![w]);
    assert(pieces_of(w) == seq![w]);
    assert(!is_prefix(seq!['t', ':'], w)) by {
        if w.len() >= 2 {
            assert(w[1] != ':');
            assert(w.subrange(0, 2)[1] == w[1]);
        }
    }
    assert(!is_prefix(seq!['c', ':'], w)) by {
        if w.len() >= 2 {
            assert(w.subrange(0, 2)[1] == w[1]);
        }
    }
    assert(vstd::utf8::is_ascii_chars(w));
    assert(ascii_lower(w) =~= w);
    assert(lowercase_of(w) == w);
    assert(seq![w].drop_last() =~= Seq::<Seq<char>>::empty());
    assert(push_pieces(empty_view(), Seq::<Seq<char>>::empty()) == empty_view());
    assert(seq![w].last() == w);
    assert(push_pieces(empty_view(), seq![w]) == push_piece(empty_view(), w));
    assert(empty_view().segments.push(w) =~= seq![w]);
}

/// What a version prints as: `Head`, the first eight characters of the
/// commit hash, or the tag.
pub open spec fn spec_head_info(h: VersionPointerView) -> Seq<char> {
    match h {
        VersionPointerView::Head => seq!['H', 'e', 'a', 'd'],
        VersionPointerView::Commit(c) => c.subrange(0, short_end(c)),
        VersionPointerView::Tag(t) => t,
    }
}

/// Whether the first eight bytes of the hash `c` in UTF-8 end at a
/// character boundary.
pub open spec fn has_short_hash(c: Seq<char>) -> bool {
    exists|k: int| 0 <= k <= c.len() && crate::text::utf8_len(#[trigger] c.subrange(0, k)) == 8
}

/// How many characters make up the first eight bytes of the hash `c`.
pub open spec fn short_end(c: Seq<char>) -> int {
    choose|k: int| 0 <= k <= c.len() && crate::text::utf8_len(#[trigger] c.subrange(0, k)) == 8
}

/// A commit pointed to has a hash whose first eight bytes end at a
/// character boundary.
pub open spec fn head_printable(v: QPathView) -> bool {
    v.head matches VersionPointerView::Commit(c) ==> has_short_hash(c)
}

/// The textual path, with ` (version)` appended where `show_head`.
pub open spec fn spec_formatted(v: QPathView, show_head: bool) -> Seq<char> {
    if show_head {
        join(v.segments, seq!['/']) + seq![' ', '('] + spec_head_info(v.head) + seq![')']
    } else {
        join(v.segments, seq!['/'])
    }
}

/// A path through the repository tree, with the version it points to.
#[derive(Debug)]
pub struct NormalizedPath {
    path: Vec<String>,
    points_to: VersionPointer,
}

impl View for NormalizedPath {
    type V = QPathView;

    closed spec fn view(&self) -> QPathView {
        QPathView { segments: views(self.path@), head: self.points_to@ }
    }
}

impl Clone for NormalizedPath {
    fn clone(&self) -> (r: Self)
        ensures
            r@ == self@,
    {
        let path = self.path.clone();
        assert(path@ =~= self.path@);
        NormalizedPath { path, points_to: self.points_to.clone() }
    }
}

impl PartialEq for NormalizedPath {
    fn eq(&self, other: &Self) -> (r: bool) {
        self.equals(other)
    }
}

impl vstd::std_specs::cmp::PartialEqSpecImpl for NormalizedPath {
    open spec fn obeys_eq_spec() -> bool {
        true
    }

    open spec fn eq_spec(&self, other: &Self) -> bool {
        self@.segments == other@.segments
    }
}

impl NormalizedPath {
    pub fn new() -> (r: Self)
        ensures
            r@ == empty_view(),
    {
        let r = NormalizedPath { path: Vec::new(), points_to: VersionPointer::Head };
        assert(r@.segments =~= Seq::<Seq<char>>::empty());
        r
    }

    fn push_one(&mut self, piece: &str)
        ensures
            final(self)@ == push_piece(old(self)@, piece@),
    {
        let t = "t:";
        let c = "c:";
        proof {
            reveal_strlit("t:");
            reveal_strlit("c:");
            assert(t@ =~= seq!['t', ':']);
            assert(c@ =~= seq!['c', ':']);
        }
        if starts_with_str(piece, t) {
            let tag = String::from_str(piece.substring_char(2, piece.unicode_len()));
            self.points_to = VersionPointer::Tag(tag);
        } else if starts_with_str(piece, c) {
            let hash = String::from_str(piece.substring_char(2, piece.unicode_len()));
            self.points_to = VersionPointer::Commit(CommitHash::new(hash));
        } else {
            self.points_to = VersionPointer::Head;
            let lower = to_lowercase(piece);
            let ghost before = self.path@;
            self.path.push(lower);
            assert(views(self.path@) == views(before).push(lower@));
        }
    }

    /// Pushes the pieces of `path` (underscores removed, trimmed, split at
    /// `/`): `t:tag` and `c:hash` set the version, other pieces are appended
    /// lowercased and point the path at its head.
    pub fn push(&mut self, path: &str)
        ensures
            final(self)@ == spec_push(old(self)@, path@),
    {
        let removed = remove_char_str(path, '_');
        let trimmed = trim_str(removed.as_str());
        let pieces = split_str(trimmed.as_str(), '/');
        let ghost start = self@;
        let mut i: usize = 0;
        while i < pieces.len()
            invariant
                i <= pieces@.len(),
                views(pieces@) == pieces_of(path@),
                self@ == push_pieces(start, views(pieces@).subrange(0, i as int)),
            decreases pieces@.len() - i,
        {
            assert(views(pieces@).subrange(0, i + 1).drop_last() =~= views(pieces@).subrange(0, i as int));
            self.push_one(pieces[i].as_str());
            i = i + 1;
        }
        assert(views(pieces@).subrange(0, i as int) == views(pieces@));
    }

    /// The path parsed from `value`.
    pub fn from_str(value: &str) -> (r: Self)
        ensures
            r@ == spec_from_str(value@),
    {
        let mut r = Self::new();
        r.push(value);
        r
    }

    /// The path built by pushing each of `value` in turn.
    pub fn from_vec(value: Vec<String>) -> (r: Self)
        ensures
            r@ == spec_from_segments(views(value@)),
    {
        let mut r = Self::new();
        let mut i: usize = 0;
        while i < value.len()
            invariant
                i <= value@.len(),
                r@ == spec_from_segments(views(value@.subrange(0, i as int))),
            decreases value@.len() - i,
        {
            assert(views(value@.subrange(0, i + 1)).drop_last() == views(value@.subrange(0, i as int)));
            r.push(value[i].as_str());
            i = i + 1;
        }
        assert(value@.subrange(0, value@.len() as int) == value@);
        r
    }

    /// The textual form: the segments joined by `/`.
    pub fn to_string(&self) -> (r: String)
        ensures
            r@ == join(self@.segments, seq!['/']),
    {
        join_str(&self.path, slash())
    }

    /// The segments of the path.
    pub fn segments(&self) -> (r: &Vec<String>)
        ensures
            views(r@) == self@.segments,
    {
        &self.path
    }

    /// The segment at `index`.
    pub fn index(&self, index: usize) -> (r: &String)
        requires
            index < self@.segments.len(),
        ensures
            r@ == self@.segments[index as int],
    {
        &self.path[index]
    }

    /// The name of the git object this path names.
    pub fn to_git_object(&self) -> (r: String)
        requires
            !(self@.head is Commit) ==> spec_trim(self@.segments).segments.len() > 0,
        ensures
            r@ == spec_git_object(self@),
    {
        if let VersionPointer::Commit(c) = &self.points_to {
            return c.get_full_hash().clone();
        }
        let trimmed_path = self.trim_whitespaces();
        let path = &trimmed_path.path;
        let n = path.len();
        let ghost t = spec_trim(self@.segments).segments;
        assert(views(path@) == t);
        if n == 1 {
            return path[0].clone();
        }
        let ghost prefixed = t.drop_last().map_values(|x: Seq<char>| seq!['_'] + x);
        let mut prefix: Vec<String> = Vec::new();
        let mut i: usize = 0;
        while i + 1 < n
            invariant
                n == path@.len(),
                views(path@) == t,
                prefixed == t.drop_last().map_values(|x: Seq<char>| seq!['_'] + x),
                n >= 2,
                i + 1 <= n,
                views(prefix@) == prefixed.subrange(0, i as int),
            decreases n - i,
        {
            let mut s = String::from_str(underscore());
            s.append(path[i].as_str());
            let ghost before = prefix@;
            prefix.push(s);
            assert(views(prefix@) == views(before).push(s@));
            assert(prefixed.subrange(0, i + 1) =~= prefixed.subrange(0, i as int).push(prefixed[i as int]));
            i = i + 1;
        }
        assert(prefixed.subrange(0, i as int) == prefixed);
        if let VersionPointer::Tag(tag) = &self.points_to {
            let mut s = String::from_str(underscore());
            s.append(path[n - 1].as_str());
            let ghost before = prefix@;
            prefix.push(s);
            prefix.push(tag.clone());
            assert(views(prefix@) =~= views(before).push(s@).push(tag@));
        } else {
            let last = path[n - 1].clone();
            let ghost before = prefix@;
            prefix.push(last);
            assert(views(prefix@) == views(before).push(last@));
        }
        join_str(&prefix, slash())
    }

    /// The textual path, followed by ` (version)` with `show_head`: `Head`,
    /// the short commit hash or the tag.
    pub fn formatted(&self, show_head: bool) -> (r: String)
        requires
            show_head ==> head_printable(self@),
        ensures
            r@ == spec_formatted(self@, show_head),
    {
        let mut out = self.to_string();
        if show_head {
            let open = " (";
            let close = ")";
            let head = "Head";
            proof {
                reveal_strlit(" (");
                reveal_strlit(")");
                reveal_strlit("Head");
            }
            out.append(open);
            match &self.points_to {
                VersionPointer::Head => out.append(head),
                VersionPointer::Commit(c) => {
                    let short = c.get_short_hash();
                    out.append(short.as_str());
                },
                VersionPointer::Tag(t) => out.append(t.as_str()),
            }
            out.append(close);
        }
        proof {
            assert(out@ =~= spec_formatted(self@, show_head));
        }
        out
    }

    pub fn set_head(&mut self, head: VersionPointer)
        ensures
            final(self)@ == (QPathView { segments: old(self)@.segments, head: head@ }),
    {
        self.points_to = head;
    }

    pub fn get_head(&self) -> (r: &VersionPointer)
        ensures
            r@ == self@.head,
    {
        &self.points_to
    }

    /// The path of the segments `n_left..n_right`, each pushed again.
    pub fn strip_n(&self, n_left: usize, n_right: usize) -> (r: NormalizedPath)
        requires
            n_left <= n_right <= self@.segments.len(),
        ensures
            r@ == spec_from_segments(self@.segments.subrange(n_left as int, n_right as int)),
    {
        let mut v: Vec<String> = Vec::new();
        let mut i = n_left;
        while i < n_right
            invariant
                n_left <= i <= n_right <= self.path@.len(),
                views(v@) == views(self.path@).subrange(n_left as int, i as int),
            decreases n_right - i,
        {
            let ghost before = v@;
            let item = self.path[i].clone();
            v.push(item);
            assert(views(v@) == views(before).push(item@));
            assert(views(self.path@).subrange(n_left as int, i + 1) =~= views(self.path@).subrange(
                n_left as int,
                i as int,
            ).push(views(self.path@)[i as int]));
            i = i + 1;
        }
        Self::from_vec(v)
    }

    /// The path without its first `n` segments.
    pub fn strip_n_left(&self, n: usize) -> (r: NormalizedPath)
        requires
            n <= self@.segments.len(),
        ensures
            r@ == spec_from_segments(self@.segments.subrange(n as int, self@.segments.len() as int)),
    {
        self.strip_n(n, self.path.len())
    }

    /// The first `n` segments.
    pub fn strip_n_right(&self, n: usize) -> (r: NormalizedPath)
        requires
            n <= self@.segments.len(),
        ensures
            r@ == spec_from_segments(self@.segments.subrange(0, n as int)),
    {
        self.strip_n(0, n)
    }

    /// The path without an empty first and an empty last segment.
    pub fn trim_whitespaces(&self) -> (r: NormalizedPath)
        ensures
            r@ == spec_trim(self@.segments),
    {
        let mut new_path = self.path.clone();
        assert(new_path@ =~= self.path@);
        if new_path.len() > 0 && new_path[0].unicode_len() == 0 {
            let ghost before = new_path@;
            new_path.remove(0);
            assert(views(new_path@) =~= views(before).drop_first());
        }
        if new_path.len() > 0 && new_path[new_path.len() - 1].unicode_len() == 0 {
            let ghost before = new_path@;
            new_path.remove(new_path.len() - 1);
            assert(views(new_path@) =~= views(before).drop_last());
        }
        Self::from_vec(new_path)
    }

    /// The path with `value` inserted before the segment at `index`, each
    /// segment pushed again.
    pub fn replace(&self, index: usize, value: String) -> (r: NormalizedPath)
        requires
            index <= self@.segments.len(),
        ensures
            r@ == spec_from_segments(self@.segments.insert(index as int, value@)),
    {
        let mut new_path = self.path.clone();
        assert(new_path@ =~= self.path@);
        new_path.insert(index, value);
        assert(views(new_path@) =~= self@.segments.insert(index as int, value@));
        Self::from_vec(new_path)
    }

    /// The first segment as a path of its own.
    pub fn first(&self) -> (r: Option<NormalizedPath>)
        ensures
            self@.segments.len() == 0 ==> r is None,
            self@.segments.len() > 0 ==> (r matches Some(p) && p@ == spec_from_str(self@.segments[0])),
    {
        if self.path.len() == 0 {
            None
        } else {
            Some(Self::from_str(self.path[0].as_str()))
        }
    }

    /// The last segment.
    pub fn last(&self) -> (r: Option<&String>)
        ensures
            self@.segments.len() == 0 ==> r is None,
            self@.segments.len() > 0 ==> (r matches Some(s) && s@ == self@.segments.last()),
    {
        if self.path.len() == 0 {
            None
        } else {
            Some(&self.path[self.path.len() - 1])
        }
    }

    pub fn is_empty(&self) -> (r: bool)
        ensures
            r == (self@.segments.len() == 0),
    {
        self.path.len() == 0
    }

    /// Each segment as a path of its own.
    pub fn iter(&self) -> (r: Vec<NormalizedPath>)
        ensures
            r@.len() == self@.segments.len(),
            forall|i: int|
                0 <= i < r@.len() ==> #[trigger] r@[i]@ == spec_from_str(self@.segments[i]),
    {
        let mut out: Vec<NormalizedPath> = Vec::new();
        let mut i: usize = 0;
        while i < self.path.len()
            invariant
                i <= self.path@.len(),
                out@.len() == i,
                forall|k: int|
                    0 <= k < i ==> #[trigger] out@[k]@ == spec_from_str(self@.segments[k]),
            decreases self.path@.len() - i,
        {
            out.push(Self::from_str(self.path[i].as_str()));
            i = i + 1;
        }
        out
    }

    /// The segments, in order.
    pub fn iter_string(&self) -> (r: &Vec<String>)
        ensures
            views(r@) == self@.segments,
    {
        &self.path
    }

    /// The segment at `index` as a path of its own.
    pub fn get(&self, index: usize) -> (r: Option<NormalizedPath>)
        ensures
            index >= self@.segments.len() ==> r is None,
            index < self@.segments.len() ==> (r matches Some(p) && p@ == spec_from_str(
                self@.segments[index as int],
            )),
    {
        if index < self.path.len() {
            Some(Self::from_str(self.path[index].as_str()))
        } else {
            None
        }
    }

    /// Whether the textual form of `prefix` is a prefix of the textual form of
    /// this path.
    pub fn starts_with(&self, prefix: &NormalizedPath) -> (r: bool)
        ensures
            r == is_prefix(join(prefix@.segments, seq!['/']), join(self@.segments, seq!['/'])),
    {
        let me = self.to_string();
        let other = prefix.to_string();
        starts_with_str(me.as_str(), other.as_str())
    }

    /// Whether both paths end in the same segment (or both are empty).
    pub fn last_is(&self, suffix: &NormalizedPath) -> (r: bool)
        ensures
            r == (if self@.segments.len() == 0 || suffix@.segments.len() == 0 {
                self@.segments.len() == 0 && suffix@.segments.len() == 0
            } else {
                self@.segments.last() == suffix@.segments.last()
            }),
    {
        match (self.last(), suffix.last()) {
            (None, None) => true,
            (Some(a), Some(b)) => str_eq(a.as_str(), b.as_str()),
            _ => false,
        }
    }

    pub fn len(&self) -> (r: usize)
        ensures
            r == self@.segments.len(),
    {
        self.path.len()
    }

    /// The path with an empty last segment appended, each segment pushed
    /// again.
    pub fn as_dir(&self) -> (r: NormalizedPath)
        ensures
            r@ == spec_from_segments(self@.segments.push(Seq::empty())),
    {
        let mut new_path = self.path.clone();
        assert(new_path@ =~= self.path@);
        new_path.push(String::new());
        assert(views(new_path@) =~= self@.segments.push(Seq::empty()));
        Self::from_vec(new_path)
    }

    /// The path with an empty first segment prepended, each segment pushed
    /// again.
    pub fn as_absolute(&self) -> (r: NormalizedPath)
        ensures
            r@ == spec_from_segments(seq![Seq::<char>::empty()] + self@.segments),
    {
        let mut new_path = self.path.clone();
        assert(new_path@ =~= self.path@);
        new_path.insert(0, String::new());
        assert(views(new_path@) =~= seq![Seq::<char>::empty()] + self@.segments);
        Self::from_vec(new_path)
    }

    /// Whether the path has more than one segment and ends in an empty one.
    pub fn is_dir(&self) -> (r: bool)
        ensures
            r == (self@.segments.len() > 1 && self@.segments.last().len() == 0),
    {
        self.path.len() > 1 && self.path[self.path.len() - 1].unicode_len() == 0
    }

    /// Whether the first segment, read as a path, prints as the empty string.
    pub fn is_absolute(&self) -> (r: bool)
        ensures
            r == (self@.segments.len() > 0 && join(
                spec_from_str(self@.segments[0]).segments,
                seq!['/'],
            ).len() == 0),
    {
        if self.path.len() == 0 {
            return false;
        }
        let first = Self::from_str(self.path[0].as_str());
        first.to_string().unicode_len() == 0
    }

    /// Whether both paths have the same segments (the versions are not
    /// compared).
    pub fn equals(&self, other: &NormalizedPath) -> (r: bool)
        ensures
            r == (self@.segments == other@.segments),
    {
        assert(self@.segments.len() == self.path@.len() && other@.segments.len()
            == other.path@.len());
        if self.path.len() != other.path.len() {
            return false;
        }
        let mut i: usize = 0;
        while i < self.path.len()
            invariant
                self.path@.len() == other.path@.len(),
                i <= self.path@.len(),
                forall|k: int| 0 <= k < i ==> self@.segments[k] == other@.segments[k],
            decreases self.path@.len() - i,
        {
            if !str_eq(self.path[i].as_str(), other.path[i].as_str()) {
                assert(self@.segments[i as int] != other@.segments[i as int]);
                return false;
            }
            i = i + 1;
        }
        assert(self@.segments =~= other@.segments);
        true
    }

    /// `self + rhs`: the segments of `rhs` resolved against this path (`.`
    /// stays, `..` goes up, a leading empty segment makes `rhs` replace this
    /// path); the result points to what `rhs` points to.
    pub fn add(self, rhs: NormalizedPath) -> (r: NormalizedPath)
        requires
            self@.segments.len() + rhs@.segments.len() <= usize::MAX,
            spec_qadd_defined(self@, rhs@),
        ensures
            r@ == spec_qadd(self@, rhs@),
    {
        let mut next_index = self.len();
        let ghost l = self@;
        let mut new_path = self;
        if new_path.is_dir() {
            new_path = new_path.strip_n_right(new_path.len() - 1);
        }
        proof {
            assert(l.segments.subrange(0, l.segments.len() - 1) == l.segments.drop_last());
        }
        let dot = ".";
        let dotdot = "..";
        proof {
            reveal_strlit(".");
            reveal_strlit("..");
            assert(dot@ =~= seq!['.']);
            assert(dotdot@ =~= seq!['.', '.']);
        }
        let ghost start = new_path@;
        let mut i: usize = 0;
        let n = rhs.len();
        while i < n
            invariant
                n == rhs@.segments.len(),
                i <= n,
                next_index <= l.segments.len() + i,
                qadd_defined(new_path@, next_index as int, rhs@.segments, i as int),
                l.segments.len() + n <= usize::MAX,
                dot@ == seq!['.'],
                dotdot@ == seq!['.', '.'],
                qadd_from(new_path@, next_index as int, rhs@.segments, i as int) == qadd_from(
                    start,
                    l.segments.len() as int,
                    rhs@.segments,
                    0,
                ),
                start == (if l.segments.len() > 1 && l.segments.last().len() == 0 {
                    spec_from_segments(l.segments.drop_last())
                } else {
                    l
                }),
            decreases n - i,
        {
            let part = rhs.path[i].as_str();
            let ghost p = rhs@.segments[i as int];
            assert(part@ == p);
            if str_eq(part, dot) {
            } else if str_eq(part, dotdot) {
                if next_index > 0 {
                    next_index = next_index - 1;
                    new_path = new_path.strip_n_right(next_index);
                }
            } else if part.unicode_len() == 0 {
                if i == 0 && n > 1 {
                    return rhs.clone();
                } else if i == n - 1 || new_path.is_empty() {
                    new_path.push(part);
                }
            } else {
                new_path.push(part);
                next_index = next_index + 1;
            }
            i = i + 1;
        }
        new_path.set_head(rhs.points_to);
        new_path
    }
}

impl NormalizedPath {
    /// `self + rhs` where it is defined (see `spec_qadd_defined`), else
    /// `None`.
    pub fn checked_add(self, rhs: NormalizedPath) -> (r: Option<NormalizedPath>)
        requires
            self@.segments.len() + rhs@.segments.len() <= usize::MAX,
        ensures
            r is Some <==> spec_qadd_defined(self@, rhs@),
            r matches Some(p) ==> p@ == spec_qadd(self@, rhs@),
    {
        let mut next_index = self.len();
        let ghost l = self@;
        let mut new_path = self;
        if new_path.is_dir() {
            new_path = new_path.strip_n_right(new_path.len() - 1);
        }
        proof {
            assert(l.segments.subrange(0, l.segments.len() - 1) == l.segments.drop_last());
        }
        let dot = ".";
        let dotdot = "..";
        proof {
            reveal_strlit(".");
            reveal_strlit("..");
            assert(dot@ =~= seq!['.']);
            assert(dotdot@ =~= seq!['.', '.']);
        }
        let ghost start = new_path@;
        let mut i: usize = 0;
        let n = rhs.len();
        while i < n
            invariant
                l == self@,
                n == rhs@.segments.len(),
                i <= n,
                next_index <= l.segments.len() + i,
                qadd_defined(new_path@, next_index as int, rhs@.segments, i as int) == qadd_defined(
                    start,
                    l.segments.len() as int,
                    rhs@.segments,
                    0,
                ),
                l.segments.len() + n <= usize::MAX,
                dot@ == seq!['.'],
                dotdot@ == seq!['.', '.'],
                qadd_from(new_path@, next_index as int, rhs@.segments, i as int) == qadd_from(
                    start,
                    l.segments.len() as int,
                    rhs@.segments,
                    0,
                ),
                start == (if l.segments.len() > 1 && l.segments.last().len() == 0 {
                    spec_from_segments(l.segments.drop_last())
                } else {
                    l
                }),
            decreases n - i,
        {
            let part = rhs.path[i].as_str();
            let ghost p = rhs@.segments[i as int];
            assert(part@ == p);
            if str_eq(part, dot) {
            } else if str_eq(part, dotdot) {
                if next_index > 0 {
                    if next_index - 1 > new_path.len() {
                        assert(p == seq!['.', '.']);
                        assert(p != seq!['.']);
                        assert(!qadd_defined(new_path@, next_index as int, rhs@.segments, i as int));
                        assert(!qadd_defined(start, l.segments.len() as int, rhs@.segments, 0));
                        assert(!spec_qadd_defined(l, rhs@));
                        return None;
                    }
                    next_index = next_index - 1;
                    new_path = new_path.strip_n_right(next_index);
                }
            } else if part.unicode_len() == 0 {
                if i == 0 && n > 1 {
                    return Some(rhs.clone());
                } else if i == n - 1 || new_path.is_empty() {
                    new_path.push(part);
                }
            } else {
                new_path.push(part);
                next_index = next_index + 1;
            }
            i = i + 1;
        }
        new_path.set_head(rhs.points_to);
        Some(new_path)
    }
}

/// A sum whose right operand starts with an empty segment and has more
/// segments (an absolute path) is that operand.
pub proof fn law_qadd_absolute(l: QPathView, r: QPathView)
    requires
        r.segments.len() > 1,
        r.segments[0].len() == 0,
    ensures
        spec_qadd(l, r) == r,
{
    let start = if l.segments.len() > 1 && l.segments.last().len() == 0 {
        spec_from_segments(l.segments.drop_last())
    } else {
        l
    };
    assert(r.segments[0] != seq!['.']);
    assert(r.segments[0] != seq!['.', '.']);
    assert(qadd_from(start, l.segments.len() as int, r.segments, 0) is None);
}

/// Segments `.` leave the segments of a path that does not end in a
/// directory marker as they are; the sum points to what the right operand
/// points to.
pub proof fn law_qadd_current_dir(l: QPathView, r: QPathView)
    requires
        !(l.segments.len() > 1 && l.segments.last().len() == 0),
        forall|i: int| 0 <= i < r.segments.len() ==> #[trigger] r.segments[i] == seq!['.'],
    ensures
        spec_qadd(l, r).segments == l.segments,
        spec_qadd_defined(l, r),
{
    lemma_qadd_dots(l, l.segments.len() as int, r.segments, 0);
}

proof fn lemma_qadd_dots(acc: QPathView, next: int, r: Seq<Seq<char>>, i: int)
    requires
        0 <= i <= r.len(),
        forall|k: int| 0 <= k < r.len() ==> #[trigger] r[k] == seq!['.'],
    ensures
        qadd_from(acc, next, r, i) == Some(acc),
        qadd_defined(acc, next, r, i),
    decreases r.len() - i,
{
    if i < r.len() {
        assert(r[i] == seq!['.']);
        lemma_qadd_dots(acc, next, r, i + 1);
    }
}

/// A sum points to the version that its right operand points to.
pub proof fn law_qadd_version(l: QPathView, r: QPathView)
    ensures
        spec_qadd(l, r).head == r.head,
{
}

/// Conversion of a value into a path.
pub trait ToNormalizedPath {
    fn to_normalized_path(&self) -> NormalizedPath;
}

/// Conversion of a collection into paths.
pub trait ToNormalizedPaths {
    fn to_normalized_paths(&self) -> Vec<NormalizedPath>;
}

impl ToNormalizedPath for String {
    fn to_normalized_path(&self) -> (r: NormalizedPath)
        ensures
            r@ == spec_from_str(self@),
    {
        NormalizedPath::from_str(self.as_str())
    }
}

} // verus!
