//! The messages of the command that spreads commits to child branches.
use vstd::prelude::*;
use vstd::string::*;

verus! {

/// The command that merges the current branch into each of its children.
#[derive(Debug, Clone, Copy)]
pub struct SpreadCommand;

impl SpreadCommand {
    /// The error where merging into `child` conflicted, spreading from
    /// `current` (both as shown).
    pub fn conflict_message(child: &str, current: &str) -> (r: String)
        ensures
            r@ == ("Encountered conflict while spreading to ")@ + child@
                + ("\nFix all conflicts, then rerun the spread command from ")@ + current@,
    {
        let mut s = String::from_str("Encountered conflict while spreading to ");
        s.append(child);
        s.append("\nFix all conflicts, then rerun the spread command from ");
        s.append(current);
        s
    }
}

} // verus!
