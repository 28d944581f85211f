//! Commits and the metadata written into their messages.
use crate::text::contains_seq;
use vstd::prelude::*;
use vstd::string::*;

verus! {

/// A commit: its hash and its message.
#[derive(Debug)]
pub struct Commit {
    hash: String,
    message: String,
}

impl Clone for Commit {
    fn clone(&self) -> (r: Self)
        ensures
            r.spec_hash() == self.spec_hash(),
            r.spec_message() == self.spec_message(),
    {
        Commit { hash: self.hash.clone(), message: self.message.clone() }
    }
}

impl PartialEq for Commit {
    fn eq(&self, other: &Self) -> (r: bool) {
        crate::text::str_eq(other.hash.as_str(), self.hash.as_str())
    }
}

impl vstd::std_specs::cmp::PartialEqSpecImpl for Commit {
    open spec fn obeys_eq_spec() -> bool {
        true
    }

    open spec fn eq_spec(&self, other: &Self) -> bool {
        self.spec_hash() == other.spec_hash()
    }
}

impl Commit {
    pub closed spec fn spec_hash(&self) -> Seq<char> {
        self.hash@
    }

    pub closed spec fn spec_message(&self) -> Seq<char> {
        self.message@
    }

    pub fn new(hash: String, message: String) -> (r: Self)
        ensures
            r.spec_hash() == hash@,
            r.spec_message() == message@,
    {
        Self { hash, message }
    }

    pub fn get_hash(&self) -> (r: &String)
        ensures
            r@ == self.spec_hash(),
    {
        &self.hash
    }

    pub fn get_message(&self) -> (r: &String)
        ensures
            r@ == self.spec_message(),
    {
        &self.message
    }

    /// Whether both are the same commit (same hash).
    pub fn equals(&self, other: &Commit) -> (r: bool)
        ensures
            r == (self.spec_hash() == other.spec_hash()),
    {
        crate::text::str_eq(self.hash.as_str(), other.hash.as_str())
    }

    /// The text after the first occurrence of `header` in the message, up to
    /// its next occurrence: where the metadata of that kind is written.
    pub fn try_get_metadata(&self, header: &str) -> (r: String)
        requires
            header@.len() > 0,
            contains_seq(self.spec_message(), header@),
        ensures
            r@ == metadata_text(self.spec_message(), header@),
    {
        let n = self.message.unicode_len();
        let m = header.unicode_len();
        let start = first_occurrence(self.message.as_str(), header, 0);
        let after = start + m;
        let rest = self.message.as_str().substring_char(after, n);
        let end = match find_occurrence(rest, header) {
            Some(k) => {
                proof {
                    lemma_occurrence_from(rest@, header@, 0);
                }
                k
            },
            None => rest.unicode_len(),
        };
        String::from_str(rest.substring_char(0, end))
    }
}

/// The position of the first occurrence of `needle` in `hay` at or after
/// `from`, if any.
pub open spec fn occurrence_from(hay: Seq<char>, needle: Seq<char>, from: int) -> Option<int>
    decreases hay.len() + 1 - from,
{
    if from < 0 || from + needle.len() > hay.len() {
        None
    } else if hay.subrange(from, from + needle.len()) == needle {
        Some(from)
    } else {
        occurrence_from(hay, needle, from + 1)
    }
}

/// The text after the first `header` up to the next one (or the end).
pub open spec fn metadata_text(message: Seq<char>, header: Seq<char>) -> Seq<char> {
    let start = occurrence_from(message, header, 0).unwrap();
    let rest = message.subrange(start + header.len(), message.len() as int);
    match occurrence_from(rest, header, 0) {
        Some(k) => rest.subrange(0, k),
        None => rest,
    }
}

/// An occurrence found from `from` lies at or after it.
pub proof fn lemma_occurrence_from(hay: Seq<char>, needle: Seq<char>, from: int)
    requires
        0 <= from,
    ensures
        occurrence_from(hay, needle, from) matches Some(k) ==> from <= k && k + needle.len() <= hay.len()
            && hay.subrange(k, k + needle.len()) == needle,
        occurrence_from(hay, needle, from) is None ==> forall|k: int|
            from <= k <= hay.len() - needle.len() ==> #[trigger] hay.subrange(k, k + needle.len()) != needle,
    decreases hay.len() + 1 - from,
{
    if from + needle.len() <= hay.len() && hay.subrange(from, from + needle.len()) != needle {
        lemma_occurrence_from(hay, needle, from + 1);
    }
}

/// The first occurrence of `needle` in `hay` at or after `from`.
fn find_from(hay: &str, needle: &str, from: usize) -> (r: Option<usize>)
    requires
        from <= hay@.len(),
    ensures
        r matches Some(k) ==> occurrence_from(hay@, needle@, from as int) == Some(k as int),
        r is None ==> occurrence_from(hay@, needle@, from as int) is None,
{
    let n = hay.unicode_len();
    let m = needle.unicode_len();
    if m > n {
        return None;
    }
    let mut i: usize = from;
    while i <= n - m
        invariant
            n == hay@.len(),
            m == needle@.len(),
            m <= n,
            from <= i,
            occurrence_from(hay@, needle@, from as int) == occurrence_from(hay@, needle@, i as int),
        decreases n - i,
    {
        let candidate = hay.substring_char(i, i + m);
        if crate::text::str_eq(candidate, needle) {
            return Some(i);
        }
        if i == n - m {
            assert(occurrence_from(hay@, needle@, i + 1) is None);
            return None;
        }
        i = i + 1;
    }
    None
}

/// The first occurrence of `needle` in `hay`.
fn find_occurrence(hay: &str, needle: &str) -> (r: Option<usize>)
    ensures
        r matches Some(k) ==> occurrence_from(hay@, needle@, 0) == Some(k as int),
        r is None ==> occurrence_from(hay@, needle@, 0) is None,
{
    find_from(hay, needle, 0)
}

/// The first occurrence of `needle` in `hay` at or after `from`, known to
/// exist.
fn first_occurrence(hay: &str, needle: &str, from: usize) -> (r: usize)
    requires
        from == 0,
        contains_seq(hay@, needle@),
    ensures
        occurrence_from(hay@, needle@, 0) == Some(r as int),
        r + needle@.len() <= hay@.len(),
{
    proof {
        let k = choose|k: int|
            0 <= k <= hay@.len() - needle@.len() && #[trigger] hay@.subrange(k, k + needle@.len()) == needle@;
        lemma_occurrence_from(hay@, needle@, 0);
    }
    let r = find_from(hay, needle, from);
    proof {
        lemma_occurrence_from(hay@, needle@, 0);
    }
    r.unwrap()
}

/// The commit message that carries metadata: the kind's header, a line
/// break, then the metadata text.
pub fn to_commit_message(header: &str, serialized: &str) -> (r: String)
    ensures
        r@ == header@ + seq!['\n'] + serialized@,
{
    let mut out = String::from_str(header);
    let newline = "\n";
    proof {
        reveal_strlit("\n");
        assert(("\n")@ =~= seq!['\n']);
    }
    out.append(newline);
    out.append(serialized);
    out
}

/// The commit without metadata of its own.
pub struct Base {}

impl Base {
    /// Its header: empty.
    pub fn header() -> (r: String)
        ensures
            r@ == Seq::<char>::empty(),
    {
        proof {
            reveal_strlit("");
        }
        String::from_str("")
    }
}

} // verus!
