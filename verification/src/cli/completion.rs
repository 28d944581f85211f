//! Which argument is being edited on a partly typed command line, read from
//! what the argument parser made of it.
use crate::text::views;
use vstd::prelude::*;
use vstd::string::*;

verus! {

/// How an argument takes values.
#[derive(Debug, Clone, Copy, PartialEq, Eq, Structural)]
pub enum ArgActionKind {
    /// One value.
    SetOne,
    /// Values appended, one per occurrence.
    Append,
    /// Anything else (flags, counts).
    Other,
}

/// An argument given on the command line: its id, how it takes values, the
/// positions of its values on the line, and its value where it takes one.
#[derive(Debug)]
pub struct ParsedArg {
    pub id: String,
    pub action: ArgActionKind,
    pub indices: Vec<usize>,
    pub value: Option<String>,
}

/// A parsed argument in terms of characters.
pub struct ParsedArgView {
    pub id: Seq<char>,
    pub action: ArgActionKind,
    pub indices: Seq<usize>,
    pub value: Option<Seq<char>>,
}

impl View for ParsedArg {
    type V = ParsedArgView;

    open spec fn view(&self) -> ParsedArgView {
        ParsedArgView {
            id: self.id@,
            action: self.action,
            indices: self.indices@,
            value: match self.value {
                Some(v) => Some(v@),
                None => None,
            },
        }
    }
}

/// The views of parsed arguments.
pub open spec fn parsed_views(s: Seq<ParsedArg>) -> Seq<ParsedArgView> {
    s.map_values(|a: ParsedArg| a@)
}

/// Whether an argument with id `id` was given.
pub open spec fn given(parsed: Seq<ParsedArgView>, id: Seq<char>) -> bool {
    exists|i: int| 0 <= i < parsed.len() && (#[trigger] parsed[i]).id == id
}

/// The first of `positionals` that was given.
pub open spec fn first_given(parsed: Seq<ParsedArgView>, positionals: Seq<Seq<char>>) -> Option<Seq<char>>
    decreases positionals.len(),
{
    if positionals.len() == 0 {
        None
    } else if given(parsed, positionals[0]) {
        Some(positionals[0])
    } else {
        first_given(parsed, positionals.drop_first())
    }
}

/// The argument being edited, with the range of its values on the line where
/// it has one: none where nothing was given; the last argument given where
/// it has no values on the line; for a single-valued last argument, itself
/// where its value is the last word of the line, else the first positional
/// that was given (if any); for an appending one, itself; otherwise none.
pub open spec fn spec_editing(
    parsed: Seq<ParsedArgView>,
    positionals: Seq<Seq<char>>,
    line_last: Option<Seq<char>>,
) -> Option<(Option<(usize, usize)>, Seq<char>)> {
    if parsed.len() == 0 {
        None
    } else {
        let last = parsed.last();
        if last.indices.len() == 0 {
            Some((None, last.id))
        } else {
            let range = Some((last.indices[0], last.indices.last()));
            match last.action {
                ArgActionKind::SetOne => if last.value is Some && line_last is Some && last.value
                    == line_last {
                    Some((range, last.id))
                } else {
                    match first_given(parsed, positionals) {
                        Some(p) => Some((None, p)),
                        None => None,
                    }
                },
                ArgActionKind::Append => Some((range, last.id)),
                ArgActionKind::Other => None,
            }
        }
    }
}

/// Whether an argument with id `id` is among `parsed`.
fn is_given(parsed: &Vec<ParsedArg>, id: &String) -> (r: bool)
    ensures
        r == given(parsed_views(parsed@), id@),
{
    let ghost pv = parsed_views(parsed@);
    let mut i: usize = 0;
    while i < parsed.len()
        invariant
            i <= parsed@.len(),
            pv == parsed_views(parsed@),
            forall|k: int| 0 <= k < i ==> pv[k].id != id@,
        decreases parsed@.len() - i,
    {
        assert(pv[i as int] == parsed@[i as int]@);
        if crate::text::str_eq(parsed[i].id.as_str(), id.as_str()) {
            return true;
        }
        i = i + 1;
    }
    false
}

/// The argument being edited on a partly typed line: see `spec_editing`.
/// `parsed` holds the arguments given on the line, in order; `positionals`
/// the ids of the command's positional arguments, in order; `line_last` the
/// last word of the line.
pub fn currently_editing_with_range(
    parsed: &Vec<ParsedArg>,
    positionals: &Vec<String>,
    line_last: Option<&String>,
) -> (r: Option<(Option<(usize, usize)>, String)>)
    ensures
        match r {
            Some((range, id)) => spec_editing(
                parsed_views(parsed@),
                views(positionals@),
                match line_last {
                    Some(l) => Some(l@),
                    None => None,
                },
            ) == Some((range, id@)),
            None => spec_editing(
                parsed_views(parsed@),
                views(positionals@),
                match line_last {
                    Some(l) => Some(l@),
                    None => None,
                },
            ) is None,
        },
{
    let ghost pv = parsed_views(parsed@);
    if parsed.len() == 0 {
        return None;
    }
    let last = &parsed[parsed.len() - 1];
    assert(pv.last() == last@);
    if last.indices.len() == 0 {
        return Some((None, last.id.clone()));
    }
    let range = Some((last.indices[0], last.indices[last.indices.len() - 1]));
    match last.action {
        ArgActionKind::Append => Some((range, last.id.clone())),
        ArgActionKind::Other => None,
        ArgActionKind::SetOne => {
            let same = match (&last.value, line_last) {
                (Some(v), Some(l)) => crate::text::str_eq(v.as_str(), l.as_str()),
                _ => false,
            };
            if same {
                return Some((range, last.id.clone()));
            }
            let ghost ps = views(positionals@);
            let ghost ll = match line_last {
                Some(l) => Some(l@),
                None => None::<Seq<char>>,
            };
            assert(spec_editing(pv, ps, ll) == match first_given(pv, ps) {
                Some(p) => Some((None::<(usize, usize)>, p)),
                None => None,
            });
            let mut i: usize = 0;
            assert(ps.subrange(0, ps.len() as int) =~= ps);
            while i < positionals.len()
                invariant
                    i <= positionals@.len(),
                    ps == views(positionals@),
                    pv == parsed_views(parsed@),
                    ll == match line_last {
                        Some(l) => Some(l@),
                        None => None::<Seq<char>>,
                    },
                    spec_editing(pv, ps, ll) == match first_given(pv, ps) {
                        Some(p) => Some((None::<(usize, usize)>, p)),
                        None => None,
                    },
                    first_given(pv, ps) == first_given(pv, ps.subrange(i as int, ps.len() as int)),
                decreases positionals@.len() - i,
            {
                let ghost rest = ps.subrange(i as int, ps.len() as int);
                assert(rest.drop_first() =~= ps.subrange(i + 1, ps.len() as int));
                assert(rest[0] == positionals@[i as int]@);
                if is_given(parsed, &positionals[i]) {
                    return Some((None, positionals[i].clone()));
                }
                i = i + 1;
            }
            assert(ps.subrange(i as int, ps.len() as int) =~= Seq::<Seq<char>>::empty());
            None
        },
    }
}

} // verus!
