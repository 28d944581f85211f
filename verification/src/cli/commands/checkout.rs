//! The decisions and messages of the command that switches branches.
use crate::cli::def::CommandError;
use crate::model::error::ModelError;
use crate::text::{contains_seq, contains_str, join, join_str, split, split_str, trim, trim_str, views};
use vstd::prelude::*;
use vstd::string::*;

verus! {

/// The command that switches branches.
#[derive(Debug, Clone, Copy)]
pub struct CheckoutCommand;

/// Whether a line of git's answer is one of its own switching messages.
pub open spec fn is_switch_line(line: Seq<char>) -> bool {
    contains_seq(line, ("Switched")@) || contains_seq(line, ("Already")@)
}

impl CheckoutCommand {
    /// Why switching to `target` failed: the path does not exist, or its
    /// node does not carry a branch.
    pub fn checkout_error(error: &ModelError, target: &str) -> (r: CommandError)
        ensures
            error is PathNotFound ==> r@ == ("Cannot checkout ")@ + target@ + (": path does not exist")@,
            error is WrongNodeType ==> r@ == ("Cannot checkout ")@ + target@
                + (": target does not support branches")@,
    {
        let mut s = String::from_str("Cannot checkout ");
        s.append(target);
        match error {
            ModelError::PathNotFound(_) => s.append(": path does not exist"),
            ModelError::WrongNodeType(_) => s.append(": target does not support branches"),
        }
        CommandError::from_message(s)
    }

    /// git's answer without its own switching lines, trimmed.
    pub fn remaining_output(output: &str) -> (r: String)
        ensures
            r@ == trim(join(split(output@, '\n').filter(|l: Seq<char>| !is_switch_line(l)), seq!['\n'])),
    {
        let lines = split_str(output, '\n');
        let ghost lv = views(lines@);
        let mut kept: Vec<String> = Vec::new();
        let mut i: usize = 0;
        while i < lines.len()
            invariant
                i <= lines@.len(),
                lv == views(lines@),
                lv == split(output@, '\n'),
                views(kept@) == lv.subrange(0, i as int).filter(|l: Seq<char>| !is_switch_line(l)),
            decreases lines@.len() - i,
        {
            let ghost before = kept@;
            assert(lv.subrange(0, i + 1).drop_last() =~= lv.subrange(0, i as int));
            assert(lv.subrange(0, i + 1).last() == lines@[i as int]@);
            let line = lines[i].as_str();
            let switched = contains_str(line, "Switched") || contains_str(line, "Already");
            if !switched {
                let l = lines[i].clone();
                kept.push(l);
                assert(views(kept@) =~= views(before).push(l@));
            }
            proof {
                reveal(Seq::filter);
            }
            i = i + 1;
        }
        assert(lv.subrange(0, i as int) =~= lv);
        let joined = join_str(&kept, "\n");
        proof {
            reveal_strlit("\n");
            assert(("\n")@ =~= seq!['\n']);
        }
        trim_str(joined.as_str())
    }
}

} // verus!
