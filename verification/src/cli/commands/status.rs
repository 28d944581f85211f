//! The decisions and messages of the command that shows the state of the
//! current branch.
use crate::spl::derivation::DerivationState;
use crate::text::{contains_str, join, join_str, split, split_str, trim, trim_str, views};
use vstd::prelude::*;
use vstd::string::*;

verus! {

/// The command that shows the state of the current branch.
#[derive(Debug, Clone, Copy)]
pub struct StatusCommand;

impl StatusCommand {
    /// git's status without its first line, trimmed.
    pub fn status_body(output: &str) -> (r: String)
        ensures
            r@ == trim(join(split(output@, '\n').drop_first(), seq!['\n'])),
    {
        let lines = split_str(output, '\n');
        let mut rest: Vec<String> = Vec::new();
        let mut i: usize = 1;
        proof {
            crate::text::lemma_split_len_pos(output@, '\n');
        }
        while i < lines.len()
            invariant
                1 <= i <= lines@.len(),
                views(lines@) == split(output@, '\n'),
                views(rest@) == views(lines@).subrange(1, i as int),
            decreases lines@.len() - i,
        {
            let ghost before = rest@;
            let l = lines[i].clone();
            rest.push(l);
            assert(views(rest@) =~= views(before).push(l@));
            assert(views(lines@).subrange(1, i + 1) =~= views(lines@).subrange(1, i as int).push(lines@[i as int]@));
            i = i + 1;
        }
        assert(views(lines@).subrange(1, i as int) =~= views(lines@).drop_first());
        let joined = join_str(&rest, "\n");
        proof {
            reveal_strlit("\n");
            assert(("\n")@ =~= seq!['\n']);
        }
        trim_str(joined.as_str())
    }

    /// Whether git's status reports unmerged paths.
    pub fn has_unmerged_paths(body: &str) -> (r: bool)
        ensures
            r == crate::text::contains_seq(body@, ("You have unmerged paths.")@),
    {
        contains_str(body, "You have unmerged paths.")
    }

    /// Whether a derivation is in progress, in words.
    pub fn state_message(state: DerivationState) -> (r: String)
        ensures
            state == DerivationState::Idle ==> r@ == ("No derivation in progress")@,
            state == DerivationState::InProgress ==> r@ == ("Derivation in progress")@,
    {
        match state {
            DerivationState::Idle => String::from_str("No derivation in progress"),
            DerivationState::InProgress => String::from_str("Derivation in progress"),
        }
    }
}

} // verus!
