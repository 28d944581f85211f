//! The root command.
use crate::text::views;
use vstd::prelude::*;
use vstd::string::*;

verus! {

/// The root command, under which all others stand.
#[derive(Debug, Clone, Copy)]
pub struct TangleCommand {}

impl TangleCommand {
    /// The completions of the import format option.
    pub fn format_completions() -> (r: Vec<String>)
        ensures
            views(r@) == seq![("native")@, ("waffle")@, ("uvl")@],
    {
        let mut v: Vec<String> = Vec::new();
        v.push(String::from_str("native"));
        v.push(String::from_str("waffle"));
        v.push(String::from_str("uvl"));
        assert(views(v@) =~= seq![("native")@, ("waffle")@, ("uvl")@]);
        v
    }
}

} // verus!
