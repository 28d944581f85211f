//! Character-level helpers on strings, each with its specification over
//! `Seq<char>`.
use vstd::prelude::*;
use vstd::string::*;

verus! {

/// Whether `c` has the Unicode `White_Space` property (the set of characters
/// that `char::is_whitespace` and `str::trim` treat as whitespace).
pub open spec fn spec_is_whitespace(c: char) -> bool {
    ||| ('\u{9}' <= c && c <= '\u{d}')
    ||| c == ' '
    ||| c == '\u{85}'
    ||| c == '\u{a0}'
    ||| c == '\u{1680}'
    ||| ('\u{2000}' <= c && c <= '\u{200a}')
    ||| c == '\u{2028}'
    ||| c == '\u{2029}'
    ||| c == '\u{202f}'
    ||| c == '\u{205f}'
    ||| c == '\u{3000}'
}

pub fn is_whitespace(c: char) -> (r: bool)
    ensures
        r == spec_is_whitespace(c),
{
    ('\u{9}' <= c && c <= '\u{d}') || c == ' ' || c == '\u{85}' || c == '\u{a0}' || c
        == '\u{1680}' || ('\u{2000}' <= c && c <= '\u{200a}') || c == '\u{2028}' || c
        == '\u{2029}' || c == '\u{202f}' || c == '\u{205f}' || c == '\u{3000}'
}

/// `s` with every occurrence of `c` removed.
pub open spec fn remove_char(s: Seq<char>, c: char) -> Seq<char>
    decreases s.len(),
{
    if s.len() == 0 {
        s
    } else if s.last() == c {
        remove_char(s.drop_last(), c)
    } else {
        remove_char(s.drop_last(), c).push(s.last())
    }
}

/// Number of whitespace characters at the front of `s[i..]`.
pub open spec fn leading_ws(s: Seq<char>, i: int) -> nat
    decreases s.len() - i,
{
    if 0 <= i < s.len() && spec_is_whitespace(s[i]) {
        1 + leading_ws(s, i + 1)
    } else {
        0
    }
}

/// Number of whitespace characters at the back of `s[..j]`.
pub open spec fn trailing_ws(s: Seq<char>, j: int) -> nat
    decreases j,
{
    if 0 < j <= s.len() && spec_is_whitespace(s[j - 1]) {
        1 + trailing_ws(s, j - 1)
    } else {
        0
    }
}

/// `s` without leading and trailing whitespace (`str::trim`).
pub open spec fn trim(s: Seq<char>) -> Seq<char> {
    let lead = leading_ws(s, 0);
    if lead >= s.len() {
        Seq::empty()
    } else {
        s.subrange(lead as int, s.len() - trailing_ws(s, s.len() as int))
    }
}

/// The pieces of `s` between occurrences of `sep` (`str::split` with a char):
/// always at least one piece; `n` separators give `n + 1` pieces.
pub open spec fn split(s: Seq<char>, sep: char) -> Seq<Seq<char>>
    decreases s.len(),
{
    if s.len() == 0 {
        seq![Seq::<char>::empty()]
    } else {
        let init = split(s.drop_last(), sep);
        if s.last() == sep {
            init.push(Seq::empty())
        } else {
            init.update(init.len() - 1, init.last().push(s.last()))
        }
    }
}

/// The parts joined with `sep` between consecutive parts (`[T]::join`).
pub open spec fn join(parts: Seq<Seq<char>>, sep: Seq<char>) -> Seq<char>
    decreases parts.len(),
{
    if parts.len() == 0 {
        Seq::empty()
    } else if parts.len() == 1 {
        parts[0]
    } else {
        join(parts.drop_last(), sep) + sep + parts.last()
    }
}

/// Whether `p` is a prefix of `s`.
pub open spec fn is_prefix(p: Seq<char>, s: Seq<char>) -> bool {
    p.len() <= s.len() && s.subrange(0, p.len() as int) == p
}

/// The character views of a sequence of strings.
pub open spec fn views(v: Seq<String>) -> Seq<Seq<char>> {
    v.map_values(|s: String| s@)
}

/// ASCII lowercasing: `A`..`Z` become `a`..`z`, other characters stay.
pub open spec fn ascii_lower(s: Seq<char>) -> Seq<char> {
    s.map_values(|c: char| if 'A' <= c && c <= 'Z' { ((c as u32) + 32) as char } else { c })
}

/// What `str::to_lowercase` returns for a string that is not all ASCII (the
/// Unicode lowercase mapping).
pub uninterp spec fn unicode_lowercase(s: Seq<char>) -> Seq<char>;

/// The lowercase of a string, as `str::to_lowercase` computes it: for an
/// ASCII string its ASCII lowercase, otherwise the Unicode mapping.
pub open spec fn lowercase_of(s: Seq<char>) -> Seq<char> {
    if vstd::utf8::is_ascii_chars(s) {
        ascii_lower(s)
    } else {
        unicode_lowercase(s)
    }
}

/// Calls `str::to_lowercase`. Claimed: for an ASCII string the result is its
/// ASCII lowercase (the Unicode lowercase mapping restricted to ASCII);
/// otherwise it is the Unicode lowercase mapping of `s`, a function of `s`
/// alone, named `unicode_lowercase`, of which nothing else is said.
#[verifier::external_body]
pub(crate) fn to_lowercase(s: &str) -> (r: String)
    ensures
        r@ == (if vstd::utf8::is_ascii_chars(s@) {
            ascii_lower(s@)
        } else {
            unicode_lowercase(s@)
        }),
{
    s.to_lowercase()
}

/// ASCII uppercasing: `a`..`z` become `A`..`Z`, other characters stay.
pub open spec fn ascii_upper(s: Seq<char>) -> Seq<char> {
    s.map_values(|c: char| if 'a' <= c && c <= 'z' { ((c as u32) - 32) as char } else { c })
}

/// What `str::to_uppercase` returns for a string that is not all ASCII (the
/// Unicode uppercase mapping).
pub uninterp spec fn unicode_uppercase(s: Seq<char>) -> Seq<char>;

/// The uppercase of a string, as `str::to_uppercase` computes it: for an
/// ASCII string its ASCII uppercase, otherwise the Unicode mapping.
pub open spec fn uppercase_of(s: Seq<char>) -> Seq<char> {
    if vstd::utf8::is_ascii_chars(s) {
        ascii_upper(s)
    } else {
        unicode_uppercase(s)
    }
}

/// Calls `str::to_uppercase`. Claimed: for an ASCII string the result is its
/// ASCII uppercase (the Unicode uppercase mapping restricted to ASCII);
/// otherwise it is the Unicode uppercase mapping of `s`, a function of `s`
/// alone, named `unicode_uppercase`, of which nothing else is said.
#[verifier::external_body]
pub(crate) fn to_uppercase(s: &str) -> (r: String)
    ensures
        r@ == (if vstd::utf8::is_ascii_chars(s@) {
            ascii_upper(s@)
        } else {
            unicode_uppercase(s@)
        }),
{
    s.to_uppercase()
}

/// `s` with every occurrence of `pat` replaced by `with`, read left to
/// right without overlaps (`str::replace` for a non-empty pattern).
pub open spec fn replace_all(s: Seq<char>, pat: Seq<char>, with: Seq<char>) -> Seq<char>
    decreases s.len(),
{
    if pat.len() == 0 || s.len() == 0 {
        s
    } else if pat.len() <= s.len() && s.subrange(0, pat.len() as int) == pat {
        with + replace_all(s.subrange(pat.len() as int, s.len() as int), pat, with)
    } else {
        seq![s[0]] + replace_all(s.drop_first(), pat, with)
    }
}

/// Whether `s` holds `pat` at position `i`.
fn occurs_at(s: &str, pat: &str, i: usize) -> (r: bool)
    requires
        i <= s@.len(),
    ensures
        r == (i + pat@.len() <= s@.len() && s@.subrange(i as int, i + pat@.len()) == pat@),
{
    let n = s.unicode_len();
    let m = pat.unicode_len();
    if m > n - i {
        return false;
    }
    let mut j: usize = 0;
    while j < m
        invariant
            n == s@.len(),
            m == pat@.len(),
            i + m <= n,
            j <= m,
            forall|k: int| 0 <= k < j ==> s@[i + k] == pat@[k],
        decreases m - j,
    {
        if s.get_char(i + j) != pat.get_char(j) {
            assert(s@.subrange(i as int, i + m)[j as int] != pat@[j as int]);
            return false;
        }
        j = j + 1;
    }
    assert(s@.subrange(i as int, i + m) =~= pat@);
    true
}

/// `str::replace`: every occurrence of the non-empty `pat` in `s`, left to
/// right without overlaps, replaced by `with`.
pub fn replace_str(s: &str, pat: &str, with: &str) -> (r: String)
    requires
        pat@.len() > 0,
    ensures
        r@ == replace_all(s@, pat@, with@),
{
    let n = s.unicode_len();
    let m = pat.unicode_len();
    let mut out = String::new();
    let mut i: usize = 0;
    assert(s@.subrange(0, n as int) =~= s@);
    assert(out@ + replace_all(s@, pat@, with@) =~= replace_all(s@, pat@, with@));
    while i < n
        invariant
            n == s@.len(),
            m == pat@.len(),
            m > 0,
            i <= n,
            out@ + replace_all(s@.subrange(i as int, n as int), pat@, with@) == replace_all(s@, pat@, with@),
        decreases n - i,
    {
        let ghost rest = s@.subrange(i as int, n as int);
        if occurs_at(s, pat, i) {
            assert(rest.subrange(0, m as int) =~= s@.subrange(i as int, i + m));
            assert(rest.subrange(m as int, rest.len() as int) =~= s@.subrange(i + m, n as int));
            let ghost before = out@;
            assert(replace_all(rest, pat@, with@) == with@ + replace_all(s@.subrange(i + m, n as int), pat@, with@));
            out.append(with);
            assert(out@ + replace_all(s@.subrange(i + m, n as int), pat@, with@) =~= before + replace_all(
                rest,
                pat@,
                with@,
            ));
            i = i + m;
        } else {
            proof {
                if m <= rest.len() {
                    assert(rest.subrange(0, m as int) =~= s@.subrange(i as int, i + m));
                }
            }
            assert(rest.drop_first() =~= s@.subrange(i + 1, n as int));
            let c = s.get_char(i);
            let ghost before = out@;
            let single = String::from_str(s.substring_char(i, i + 1));
            assert(single@ =~= seq![c]);
            out.append(single.as_str());
            assert(out@ + replace_all(s@.subrange(i + 1, n as int), pat@, with@) =~= before + replace_all(
                rest,
                pat@,
                with@,
            ));
            i = i + 1;
        }
    }
    assert(s@.subrange(n as int, n as int) =~= Seq::<char>::empty());
    assert(out@ + Seq::<char>::empty() =~= out@);
    out
}

pub proof fn lemma_leading_ws_bound(s: Seq<char>, i: int)
    requires
        0 <= i <= s.len(),
    ensures
        i + leading_ws(s, i) <= s.len(),
        forall|k: int| i <= k < i + leading_ws(s, i) ==> spec_is_whitespace(#[trigger] s[k]),
        i + leading_ws(s, i) < s.len() ==> !spec_is_whitespace(s[i + leading_ws(s, i)]),
    decreases s.len() - i,
{
    if i < s.len() && spec_is_whitespace(s[i]) {
        lemma_leading_ws_bound(s, i + 1);
    }
}

pub proof fn lemma_trailing_ws_bound(s: Seq<char>, j: int)
    requires
        0 <= j <= s.len(),
    ensures
        trailing_ws(s, j) <= j,
        forall|k: int| j - trailing_ws(s, j) <= k < j ==> spec_is_whitespace(#[trigger] s[k]),
        trailing_ws(s, j) < j ==> !spec_is_whitespace(s[j - trailing_ws(s, j) - 1]),
    decreases j,
{
    if j > 0 && spec_is_whitespace(s[j - 1]) {
        lemma_trailing_ws_bound(s, j - 1);
    }
}

/// `str::trim`, computed character by character.
pub fn trim_str(s: &str) -> (r: String)
    ensures
        r@ == trim(s@),
{
    let n = s.unicode_len();
    let mut i: usize = 0;
    while i < n && is_whitespace(s.get_char(i))
        invariant
            n == s@.len(),
            i <= n,
            leading_ws(s@, 0) == i + leading_ws(s@, i as int),
        decreases n - i,
    {
        i = i + 1;
    }
    if i >= n {
        return String::new();
    }
    let mut j: usize = n;
    while j > 0 && is_whitespace(s.get_char(j - 1))
        invariant
            n == s@.len(),
            j <= n,
            trailing_ws(s@, n as int) == (n - j) + trailing_ws(s@, j as int),
        decreases j,
    {
        j = j - 1;
    }
    proof {
        lemma_leading_ws_bound(s@, 0);
        lemma_trailing_ws_bound(s@, n as int);
    }
    String::from_str(s.substring_char(i, j))
}


/// `s` with every occurrence of `c` removed (`str::replace(c, "")`).
pub fn remove_char_str(s: &str, c: char) -> (r: String)
    ensures
        r@ == remove_char(s@, c),
{
    let n = s.unicode_len();
    let mut out = String::new();
    let mut start: usize = 0;
    let mut i: usize = 0;
    while i < n
        invariant
            n == s@.len(),
            start <= i <= n,
            remove_char(s@.subrange(0, i as int), c) == out@ + s@.subrange(start as int, i as int),
        decreases n - i,
    {
        assert(s@.subrange(0, i + 1).drop_last() == s@.subrange(0, i as int));
        if s.get_char(i) == c {
            out.append(s.substring_char(start, i));
            start = i + 1;
        } else {
            assert(s@.subrange(start as int, i + 1) == s@.subrange(start as int, i as int).push(s@[i as int]));
        }
        i = i + 1;
    }
    out.append(s.substring_char(start, n));
    assert(s@.subrange(0, n as int) == s@);
    out
}

/// `str::split` on a single character, collecting the pieces.
pub fn split_str(s: &str, sep: char) -> (r: Vec<String>)
    ensures
        views(r@) == split(s@, sep),
{
    let n = s.unicode_len();
    let mut out: Vec<String> = Vec::new();
    let mut start: usize = 0;
    let mut i: usize = 0;
    assert(s@.subrange(0, 0) == Seq::<char>::empty());
    while i < n
        invariant
            n == s@.len(),
            start <= i <= n,
            split(s@.subrange(0, i as int), sep) == views(out@).push(s@.subrange(start as int, i as int)),
        decreases n - i,
    {
        assert(s@.subrange(0, i + 1).drop_last() == s@.subrange(0, i as int));
        if s.get_char(i) == sep {
            let piece = String::from_str(s.substring_char(start, i));
            let ghost before = out@;
            out.push(piece);
            assert(views(out@) == views(before).push(piece@));
            start = i + 1;
            assert(s@.subrange(start as int, i + 1) == Seq::<char>::empty());
        } else {
            assert(s@.subrange(start as int, i + 1) == s@.subrange(start as int, i as int).push(s@[i as int]));
        }
        i = i + 1;
    }
    let last = String::from_str(s.substring_char(start, n));
    let ghost before = out@;
    out.push(last);
    assert(views(out@) == views(before).push(last@));
    assert(s@.subrange(0, n as int) == s@);
    out
}

/// The parts joined with the separator `sep` (`[String]::join`).
pub fn join_str(parts: &Vec<String>, sep: &str) -> (r: String)
    ensures
        r@ == join(views(parts@), sep@),
{
    let mut out = String::new();
    let mut i: usize = 0;
    while i < parts.len()
        invariant
            i <= parts@.len(),
            out@ == join(views(parts@.subrange(0, i as int)), sep@),
        decreases parts@.len() - i,
    {
        let ghost prev = views(parts@.subrange(0, i as int));
        assert(views(parts@.subrange(0, i + 1)).drop_last() == prev);
        if i > 0 {
            out.append(sep);
        }
        out.append(parts[i].as_str());
        i = i + 1;
    }
    assert(parts@.subrange(0, parts@.len() as int) == parts@);
    out
}

/// Whether `p` is a prefix of `s` (`str::starts_with`).
pub fn starts_with_str(s: &str, p: &str) -> (r: bool)
    ensures
        r == is_prefix(p@, s@),
{
    let n = s.unicode_len();
    let m = p.unicode_len();
    if m > n {
        return false;
    }
    let mut i: usize = 0;
    while i < m
        invariant
            n == s@.len(),
            m == p@.len(),
            m <= n,
            i <= m,
            forall|k: int| 0 <= k < i ==> s@[k] == p@[k],
        decreases m - i,
    {
        if s.get_char(i) != p.get_char(i) {
            return false;
        }
        i = i + 1;
    }
    assert(s@.subrange(0, m as int) == p@);
    true
}

/// Whether `s` contains the character `c` (`str::contains` with a char).
pub fn contains_char_str(s: &str, c: char) -> (r: bool)
    ensures
        r == s@.contains(c),
{
    let n = s.unicode_len();
    let mut i: usize = 0;
    while i < n
        invariant
            n == s@.len(),
            i <= n,
            forall|k: int| 0 <= k < i ==> s@[k] != c,
        decreases n - i,
    {
        if s.get_char(i) == c {
            return true;
        }
        i = i + 1;
    }
    false
}

/// Equality of two strings by their characters.
pub fn str_eq(a: &str, b: &str) -> (r: bool)
    ensures
        r == (a@ == b@),
{
    let n = a.unicode_len();
    if n != b.unicode_len() {
        return false;
    }
    let mut i: usize = 0;
    while i < n
        invariant
            n == a@.len(),
            n == b@.len(),
            i <= n,
            forall|k: int| 0 <= k < i ==> a@[k] == b@[k],
        decreases n - i,
    {
        if a.get_char(i) != b.get_char(i) {
            return false;
        }
        i = i + 1;
    }
    assert(a@ == b@);
    true
}


pub proof fn lemma_remove_char_absent(s: Seq<char>, c: char)
    requires
        !s.contains(c),
    ensures
        remove_char(s, c) == s,
    decreases s.len(),
{
    if s.len() > 0 {
        assert(!s.drop_last().contains(c)) by {
            if s.drop_last().contains(c) {
                let k = choose|k: int| 0 <= k < s.drop_last().len() && s.drop_last()[k] == c;
                assert(s[k] == c);
            }
        }
        lemma_remove_char_absent(s.drop_last(), c);
        assert(s.drop_last().push(s.last()) =~= s);
    }
}

pub proof fn lemma_remove_char_append(a: Seq<char>, b: Seq<char>, c: char)
    ensures
        remove_char(a + b, c) == remove_char(a, c) + remove_char(b, c),
    decreases b.len(),
{
    if b.len() == 0 {
        assert(a + b =~= a);
        assert(remove_char(a, c) + remove_char(b, c) =~= remove_char(a, c));
    } else {
        lemma_remove_char_append(a, b.drop_last(), c);
        assert((a + b).drop_last() =~= a + b.drop_last());
        assert((a + b).last() == b.last());
        if b.last() != c {
            assert(remove_char(a, c) + remove_char(b.drop_last(), c).push(b.last()) =~= (
            remove_char(a, c) + remove_char(b.drop_last(), c)).push(b.last()));
        }
    }
}

pub proof fn lemma_trim_unchanged(s: Seq<char>)
    requires
        s.len() > 0 ==> !spec_is_whitespace(s[0]) && !spec_is_whitespace(s.last()),
    ensures
        trim(s) == s,
{
    if s.len() > 0 {
        assert(leading_ws(s, 0) == 0);
        assert(trailing_ws(s, s.len() as int) == 0);
        assert(s.subrange(0, s.len() as int) =~= s);
    }
}

pub proof fn lemma_split_push_other(s: Seq<char>, x: char, sep: char)
    requires
        x != sep,
    ensures
        split(s.push(x), sep) == split(s, sep).update(
            split(s, sep).len() - 1,
            split(s, sep).last().push(x),
        ),
{
    assert(s.push(x).drop_last() =~= s);
}

/// Appending characters without a separator extends the last piece.
pub proof fn lemma_split_append_plain(s: Seq<char>, b: Seq<char>, sep: char)
    requires
        !b.contains(sep),
    ensures
        split(s + b, sep).len() == split(s, sep).len(),
        split(s + b, sep) == split(s, sep).update(
            split(s, sep).len() - 1,
            split(s, sep).last() + b,
        ),
    decreases b.len(),
{
    lemma_split_len_pos(s, sep);
    if b.len() == 0 {
        assert(s + b =~= s);
        assert(split(s, sep).last() + b =~= split(s, sep).last());
        assert(split(s, sep).update(split(s, sep).len() - 1, split(s, sep).last()) =~= split(s, sep));
    } else {
        let bi = b.drop_last();
        assert(!bi.contains(sep)) by {
            if bi.contains(sep) {
                let k = choose|k: int| 0 <= k < bi.len() && bi[k] == sep;
                assert(b[k] == sep);
            }
        }
        lemma_split_append_plain(s, bi, sep);
        assert(b.last() != sep) by {
            assert(b[b.len() - 1] == b.last());
        }
        assert(s + b =~= (s + bi).push(b.last()));
        lemma_split_push_other(s + bi, b.last(), sep);
        let l = split(s, sep).len();
        let mid = split(s + bi, sep);
        assert(mid.len() == l);
        assert(mid.last() == split(s, sep).last() + bi);
        assert(split(s, sep).last() + bi + seq![b.last()] =~= split(s, sep).last() + b);
        assert(mid.last().push(b.last()) =~= split(s, sep).last() + b);
        assert(split(s + b, sep) =~= split(s, sep).update(
            split(s, sep).len() - 1,
            split(s, sep).last() + b,
        ));
    }
}

pub proof fn lemma_split_len_pos(s: Seq<char>, sep: char)
    ensures
        split(s, sep).len() >= 1,
    decreases s.len(),
{
    if s.len() > 0 {
        lemma_split_len_pos(s.drop_last(), sep);
    }
}

/// Splitting the joined parts gives the parts back, when no part holds the
/// separator.
pub proof fn lemma_split_join(parts: Seq<Seq<char>>, sep: char)
    requires
        parts.len() >= 1,
        forall|i: int| 0 <= i < parts.len() ==> !(#[trigger] parts[i]).contains(sep),
    ensures
        split(join(parts, seq![sep]), sep) == parts,
    decreases parts.len(),
{
    if parts.len() == 1 {
        let e = Seq::<char>::empty();
        lemma_split_append_plain(e, parts[0], sep);
        assert(e + parts[0] =~= parts[0]);
        assert(split(parts[0], sep) =~= parts);
    } else {
        let init = parts.drop_last();
        lemma_split_join(init, sep);
        let a = join(init, seq![sep]);
        assert(a.push(sep).drop_last() =~= a);
        assert(split(a.push(sep), sep) == split(a, sep).push(Seq::empty()));
        assert(!parts.last().contains(sep)) by {
            assert(parts[parts.len() - 1] == parts.last());
        }
        lemma_split_append_plain(a.push(sep), parts.last(), sep);
        assert(a + seq![sep] + parts.last() =~= a.push(sep) + parts.last());
        assert(Seq::<char>::empty() + parts.last() =~= parts.last());
        assert(split(join(parts, seq![sep]), sep) =~= parts);
    }
}

/// The characters of joined parts come from the parts or are separators.
pub proof fn lemma_join_contains(parts: Seq<Seq<char>>, sep: Seq<char>, c: char)
    requires
        forall|i: int| 0 <= i < parts.len() ==> !(#[trigger] parts[i]).contains(c),
        !sep.contains(c),
    ensures
        !join(parts, sep).contains(c),
    decreases parts.len(),
{
    if parts.len() > 1 {
        lemma_join_contains(parts.drop_last(), sep, c);
        let j = join(parts, sep);
        let a = join(parts.drop_last(), sep);
        assert(!parts.last().contains(c)) by {
            assert(parts[parts.len() - 1] == parts.last());
        }
        if j.contains(c) {
            let k = choose|k: int| 0 <= k < j.len() && j[k] == c;
            if k < a.len() {
                assert(a[k] == c);
            } else if k < a.len() + sep.len() {
                assert(sep[k - a.len()] == c);
            } else {
                assert(parts.last()[k - a.len() - sep.len()] == c);
            }
        }
    } else if parts.len() == 1 {
        assert(parts[0] == join(parts, sep));
    }
}

/// The joined parts start with the first part, followed by the separator when
/// there is more than one part.
pub proof fn lemma_join_prefix(parts: Seq<Seq<char>>, sep: Seq<char>)
    requires
        parts.len() >= 1,
        sep.len() == 1,
    ensures
        join(parts, sep).len() >= parts[0].len(),
        join(parts, sep).subrange(0, parts[0].len() as int) == parts[0],
        parts.len() >= 2 ==> join(parts, sep).len() > parts[0].len() && join(parts, sep)[parts[0].len() as int] == sep[0],
    decreases parts.len(),
{
    if parts.len() >= 2 {
        let init = parts.drop_last();
        lemma_join_prefix(init, sep);
        let a = join(init, sep);
        let j = join(parts, sep);
        assert(j == a + sep + parts.last());
        assert(j.subrange(0, parts[0].len() as int) =~= a.subrange(0, parts[0].len() as int));
        if parts.len() == 2 {
            assert(a == parts[0]);
            assert(j[parts[0].len() as int] == sep[0]);
        } else {
            assert(j[parts[0].len() as int] == a[parts[0].len() as int]);
        }
    } else {
        assert(join(parts, sep) == parts[0]);
        assert(parts[0].subrange(0, parts[0].len() as int) =~= parts[0]);
    }
}

/// The joined parts end with the last part, preceded by the separator when
/// there is more than one part.
pub proof fn lemma_join_suffix(parts: Seq<Seq<char>>, sep: Seq<char>)
    requires
        parts.len() >= 1,
        sep.len() == 1,
    ensures
        join(parts, sep).len() >= parts.last().len(),
        parts.last().len() > 0 ==> join(parts, sep).last() == parts.last().last(),
        parts.len() >= 2 && parts.last().len() == 0 ==> join(parts, sep).len() > 0 && join(parts, sep).last() == sep[0],
{
    if parts.len() >= 2 {
        let j = join(parts, sep);
        let a = join(parts.drop_last(), sep);
        assert(j == a + sep + parts.last());
    } else {
        assert(join(parts, sep) == parts[0]);
    }
}

/// Removing a character from joined parts removes it from each part, when the
/// separator does not hold it.
pub proof fn lemma_remove_char_join(parts: Seq<Seq<char>>, sep: Seq<char>, c: char)
    requires
        !sep.contains(c),
    ensures
        remove_char(join(parts, sep), c) == join(
            parts.map_values(|x: Seq<char>| remove_char(x, c)),
            sep,
        ),
    decreases parts.len(),
{
    let f = |x: Seq<char>| remove_char(x, c);
    if parts.len() == 1 {
        assert(join(parts, sep) == parts[0]);
        assert(join(parts.map_values(f), sep) == parts.map_values(f)[0]);
    } else if parts.len() > 1 {
        lemma_remove_char_join(parts.drop_last(), sep, c);
        let a = join(parts.drop_last(), sep);
        lemma_remove_char_append(a + sep, parts.last(), c);
        lemma_remove_char_append(a, sep, c);
        lemma_remove_char_absent(sep, c);
        assert(parts.map_values(f).drop_last() =~= parts.drop_last().map_values(f));
        assert(parts.map_values(f).last() == remove_char(parts.last(), c));
    } else {
        assert(join(parts, sep) == Seq::<char>::empty());
        assert(join(parts.map_values(f), sep) == Seq::<char>::empty());
    }
}

/// Lexicographic order of character sequences by code point (the order of
/// `str` and `String`).
pub open spec fn seq_less(a: Seq<char>, b: Seq<char>) -> bool
    decreases a.len(),
{
    if a.len() == 0 {
        b.len() > 0
    } else if b.len() == 0 {
        false
    } else if a[0] != b[0] {
        a[0] < b[0]
    } else {
        seq_less(a.drop_first(), b.drop_first())
    }
}

pub proof fn lemma_seq_less_total(a: Seq<char>, b: Seq<char>)
    ensures
        seq_less(a, b) || seq_less(b, a) || a == b,
        !(seq_less(a, b) && seq_less(b, a)),
        !seq_less(a, a),
    decreases a.len(),
{
    if a.len() > 0 && b.len() > 0 {
        lemma_seq_less_total(a.drop_first(), b.drop_first());
        if a[0] == b[0] && a.drop_first() == b.drop_first() {
            assert(a =~= seq![a[0]] + a.drop_first());
            assert(b =~= seq![b[0]] + b.drop_first());
        }
    } else if a.len() == 0 && b.len() == 0 {
        assert(a =~= b);
    } else if a.len() > 0 {
        lemma_seq_less_total(a.drop_first(), a.drop_first());
    }
}

pub proof fn lemma_seq_less_transitive(a: Seq<char>, b: Seq<char>, c: Seq<char>)
    requires
        seq_less(a, b),
        seq_less(b, c),
    ensures
        seq_less(a, c),
    decreases a.len(),
{
    if a.len() > 0 && b.len() > 0 && c.len() > 0 {
        if a[0] == b[0] && b[0] == c[0] {
            lemma_seq_less_transitive(a.drop_first(), b.drop_first(), c.drop_first());
        }
    }
}

/// Whether `a` comes before `b` in code point order.
pub fn str_less(a: &str, b: &str) -> (r: bool)
    ensures
        r == seq_less(a@, b@),
{
    let n = a.unicode_len();
    let m = b.unicode_len();
    let mut i: usize = 0;
    assert(a@.subrange(0, n as int) =~= a@);
    assert(b@.subrange(0, m as int) =~= b@);
    while i < n && i < m
        invariant
            n == a@.len(),
            m == b@.len(),
            i <= n,
            i <= m,
            seq_less(a@, b@) == seq_less(a@.subrange(i as int, n as int), b@.subrange(i as int, m as int)),
        decreases n - i,
    {
        let x = a.get_char(i);
        let y = b.get_char(i);
        assert(a@.subrange(i as int, n as int).drop_first() =~= a@.subrange(i + 1, n as int));
        assert(b@.subrange(i as int, m as int).drop_first() =~= b@.subrange(i + 1, m as int));
        if x != y {
            return x < y;
        }
        i = i + 1;
    }
    i < m && i >= n
}

/// The literal `/`.
pub fn slash() -> (r: &'static str)
    ensures
        r@ == seq!['/'],
{
    proof {
        reveal_strlit("/");
    }
    "/"
}

/// A string literal with its characters.
pub fn colon() -> (r: &'static str)
    ensures
        r@ == seq![':'],
{
    proof {
        reveal_strlit(":");
    }
    ":"
}

/// A string literal with its characters.
pub fn underscore() -> (r: &'static str)
    ensures
        r@ == seq!['_'],
{
    proof {
        reveal_strlit("_");
    }
    "_"
}

/// A string literal with its characters.
pub fn empty_str() -> (r: &'static str)
    ensures
        r@ == Seq::<char>::empty(),
{
    proof {
        reveal_strlit("");
    }
    ""
}

/// Whether `needle` occurs in `hay`.
pub open spec fn contains_seq(hay: Seq<char>, needle: Seq<char>) -> bool {
    exists|i: int| 0 <= i <= hay.len() - needle.len() && #[trigger] hay.subrange(i, i + needle.len()) == needle
}

/// Whether `needle` occurs in `hay` (`str::contains`).
pub fn contains_str(hay: &str, needle: &str) -> (r: bool)
    ensures
        r == contains_seq(hay@, needle@),
{
    let n = hay.unicode_len();
    let m = needle.unicode_len();
    if m > n {
        proof {
            assert forall|i: int| 0 <= i <= hay@.len() - needle@.len() implies #[trigger] hay@.subrange(
                i,
                i + needle@.len(),
            ) != needle@ by {}
        }
        return false;
    }
    if m == 0 {
        assert(hay@.subrange(0int, 0int + needle@.len()) =~= needle@);
        return true;
    }
    let mut i: usize = 0;
    while i <= n - m
        invariant
            n == hay@.len(),
            m == needle@.len(),
            1 <= m <= n,
            i <= n - m + 1,
            forall|k: int| 0 <= k < i ==> #[trigger] hay@.subrange(k, k + m) != needle@,
        decreases n - m + 1 - i,
    {
        let mut j: usize = 0;
        let mut same = true;
        assert(hay@.subrange(i as int, i as int) =~= needle@.subrange(0, 0));
        while j < m
            invariant
                n == hay@.len(),
                m == needle@.len(),
                i + m <= n,
                j <= m,
                same == (hay@.subrange(i as int, i + j) == needle@.subrange(0, j as int)),
            decreases m - j,
        {
            if same && hay.get_char(i + j) != needle.get_char(j) {
                same = false;
            }
            proof {
                if same {
                    assert(hay@.subrange(i as int, i + j + 1) =~= hay@.subrange(i as int, i + j).push(hay@[i + j]));
                    assert(needle@.subrange(0, j + 1) =~= needle@.subrange(0, j as int).push(needle@[j as int]));
                } else {
                    if hay@.subrange(i as int, i + j + 1) == needle@.subrange(0, j + 1) {
                        if hay@.subrange(i as int, i + j) != needle@.subrange(0, j as int) {
                            assert(hay@.subrange(i as int, i + j) =~= hay@.subrange(i as int, i + j + 1).subrange(0, j as int));
                            assert(needle@.subrange(0, j as int) =~= needle@.subrange(0, j + 1).subrange(0, j as int));
                        } else {
                            assert(hay@.subrange(i as int, i + j + 1)[j as int] == hay@[i + j]);
                            assert(needle@.subrange(0, j + 1)[j as int] == needle@[j as int]);
                        }
                    }
                }
            }
            j = j + 1;
        }
        assert(needle@.subrange(0, m as int) =~= needle@);
        if same {
            return true;
        }
        i = i + 1;
    }
    false
}

/// The decimal digit of `d` (below ten).
pub open spec fn digit_char(d: int) -> char {
    if d == 0 {
        '0'
    } else if d == 1 {
        '1'
    } else if d == 2 {
        '2'
    } else if d == 3 {
        '3'
    } else if d == 4 {
        '4'
    } else if d == 5 {
        '5'
    } else if d == 6 {
        '6'
    } else if d == 7 {
        '7'
    } else if d == 8 {
        '8'
    } else {
        '9'
    }
}

/// The decimal digits of a natural number, without leading zeros.
pub open spec fn spec_digits(n: nat) -> Seq<char>
    decreases n,
{
    if n < 10 {
        seq![digit_char(n as int)]
    } else {
        spec_digits(n / 10).push(digit_char((n % 10) as int))
    }
}

/// The decimal form of an integer, with `-` before a negative one.
pub open spec fn spec_decimal(n: int) -> Seq<char> {
    if n < 0 {
        seq!['-'] + spec_digits((-n) as nat)
    } else {
        spec_digits(n as nat)
    }
}

fn digit(d: u64) -> (r: &'static str)
    requires
        d < 10,
    ensures
        r@ == seq![digit_char(d as int)],
{
    proof {
        reveal_strlit("0");
        reveal_strlit("1");
        reveal_strlit("2");
        reveal_strlit("3");
        reveal_strlit("4");
        reveal_strlit("5");
        reveal_strlit("6");
        reveal_strlit("7");
        reveal_strlit("8");
        reveal_strlit("9");
    }
    if d == 0 {
        "0"
    } else if d == 1 {
        "1"
    } else if d == 2 {
        "2"
    } else if d == 3 {
        "3"
    } else if d == 4 {
        "4"
    } else if d == 5 {
        "5"
    } else if d == 6 {
        "6"
    } else if d == 7 {
        "7"
    } else if d == 8 {
        "8"
    } else {
        "9"
    }
}

/// The digits of `n`.
fn digits_string(n: u64) -> (r: String)
    ensures
        r@ == spec_digits(n as nat),
    decreases n,
{
    if n < 10 {
        let s = String::from_str(digit(n));
        assert(s@ =~= spec_digits(n as nat));
        s
    } else {
        let mut s = digits_string(n / 10);
        s.append(digit(n % 10));
        assert(s@ =~= spec_digits(n as nat));
        s
    }
}

/// The decimal form of a count (`usize::to_string`).
pub fn count_string(n: usize) -> (r: String)
    ensures
        r@ == spec_digits(n as nat),
{
    digits_string(n as u64)
}

/// The decimal form of `n` (`i32::to_string`).
pub fn decimal_string(n: i32) -> (r: String)
    ensures
        r@ == spec_decimal(n as int),
{
    if n < 0 {
        let magnitude: u64 = (-(n as i64)) as u64;
        let minus = "-";
        proof {
            reveal_strlit("-");
        }
        let mut s = String::from_str(minus);
        let d = digits_string(magnitude);
        s.append(d.as_str());
        assert(s@ =~= spec_decimal(n as int));
        s
    } else {
        digits_string(n as u64)
    }
}

/// The length of `c` in UTF-8: 1 to 4 bytes by its code point.
pub open spec fn utf8_width(c: char) -> nat {
    if (c as u32) < 0x80 {
        1
    } else if (c as u32) < 0x800 {
        2
    } else if (c as u32) < 0x10000 {
        3
    } else {
        4
    }
}

/// The length of `s` in UTF-8.
pub open spec fn utf8_len(s: Seq<char>) -> nat
    decreases s.len(),
{
    if s.len() == 0 {
        0
    } else {
        utf8_len(s.drop_last()) + utf8_width(s.last())
    }
}

/// Every character takes at least one byte.
pub proof fn lemma_utf8_len_at_least(s: Seq<char>)
    ensures
        utf8_len(s) >= s.len(),
    decreases s.len(),
{
    if s.len() > 0 {
        lemma_utf8_len_at_least(s.drop_last());
    }
}

/// Longer prefixes take more bytes.
pub proof fn lemma_utf8_len_grows(s: Seq<char>, i: int, j: int)
    requires
        0 <= i < j <= s.len(),
    ensures
        utf8_len(s.subrange(0, i)) < utf8_len(s.subrange(0, j)),
    decreases j - i,
{
    assert(s.subrange(0, j).drop_last() =~= s.subrange(0, j - 1));
    if i < j - 1 {
        lemma_utf8_len_grows(s, i, j - 1);
    }
}

fn char_width(c: char) -> (r: usize)
    ensures
        r == utf8_width(c),
{
    let code = c as u32;
    if code < 0x80 {
        1
    } else if code < 0x800 {
        2
    } else if code < 0x10000 {
        3
    } else {
        4
    }
}

/// The characters of `s` that make up its first `n` bytes (`&s[..n]`); `n`
/// must end at a character boundary.
pub fn utf8_prefix(s: &str, n: usize) -> (r: String)
    requires
        exists|k: int| 0 <= k <= s@.len() && utf8_len(#[trigger] s@.subrange(0, k)) == n,
    ensures
        forall|k: int| 0 <= k <= s@.len() && utf8_len(#[trigger] s@.subrange(0, k)) == n ==> r@ == s@.subrange(0, k),
{
    let ghost k0 = choose|k: int| 0 <= k <= s@.len() && utf8_len(#[trigger] s@.subrange(0, k)) == n;
    let len = s.unicode_len();
    let mut i: usize = 0;
    let mut bytes: usize = 0;
    proof {
        assert(s@.subrange(0, 0) =~= Seq::<char>::empty());
    }
    while bytes < n
        invariant
            len == s@.len(),
            0 <= k0 <= s@.len(),
            utf8_len(s@.subrange(0, k0)) == n,
            i <= k0,
            bytes == utf8_len(s@.subrange(0, i as int)),
        decreases k0 - i,
    {
        proof {
            if i == k0 {
                assert(false);
            }
            assert(s@.subrange(0, i + 1).drop_last() =~= s@.subrange(0, i as int));
            if i + 1 < k0 {
                lemma_utf8_len_grows(s@, i + 1, k0);
            }
        }
        let c = s.get_char(i);
        let w = char_width(c);
        bytes = bytes + w;
        i = i + 1;
    }
    proof {
        if i < k0 {
            lemma_utf8_len_grows(s@, i as int, k0);
        }
        assert forall|k: int| 0 <= k <= s@.len() && utf8_len(#[trigger] s@.subrange(0, k)) == n implies k == i by {
            if k < i {
                lemma_utf8_len_grows(s@, k, i as int);
            } else if k > i {
                lemma_utf8_len_grows(s@, i as int, k);
            }
        }
    }
    String::from_str(s.substring_char(0, i))
}

} // verus!
