//! The decisions of the command that tags branches.
use crate::text::views;
use vstd::prelude::*;
use vstd::string::*;

verus! {

/// The command that creates, deletes and lists tags.
#[derive(Debug, Clone, Copy)]
pub struct TagCommand;

impl TagCommand {
    /// The lines that list the tags of the current branch: the tags, or a
    /// note that there are none.
    pub fn tag_lines(tags: &Vec<String>) -> (r: Vec<String>)
        ensures
            tags@.len() == 0 ==> r@.len() == 1 && r@[0]@ == ("No tags on current branch")@,
            tags@.len() > 0 ==> views(r@) == views(tags@),
    {
        if tags.len() == 0 {
            let mut v: Vec<String> = Vec::new();
            v.push(String::from_str("No tags on current branch"));
            v
        } else {
            let v = tags.clone();
            assert(v@ =~= tags@);
            v
        }
    }
}

} // verus!
