//! The decisions of the command that moves a commit of a product back onto
//! a feature: which commits can be untied, which feature takes the commit,
//! and what the cherry-pick came to.
use crate::cli::def::CommandError;
use crate::git::interface::MergeOutcome;
use crate::model::qualified_path::CommitHash;
use crate::spl::derivation::DerivationMetadata;
use crate::text::{join, join_str, views};
use vstd::prelude::*;
use vstd::string::*;

verus! {

/// The command that unties a commit from a product.
#[derive(Debug, Clone, Copy)]
pub struct UntieCommand;

/// Whether `files` holds each of `changed`.
pub open spec fn holds_all(files: Seq<Seq<char>>, changed: Seq<Seq<char>>) -> bool {
    forall|i: int| 0 <= i < changed.len() ==> files.contains(#[trigger] changed[i])
}

/// Whether `s` holds `x`, computed.
fn vec_contains(s: &Vec<String>, x: &String) -> (r: bool)
    ensures
        r == views(s@).contains(x@),
{
    let mut i: usize = 0;
    while i < s.len()
        invariant
            i <= s@.len(),
            forall|k: int| 0 <= k < i ==> views(s@)[k] != x@,
        decreases s@.len() - i,
    {
        if crate::text::str_eq(s[i].as_str(), x.as_str()) {
            assert(views(s@)[i as int] == x@);
            return true;
        }
        i = i + 1;
    }
    false
}

/// The message where several features could take the commit.
pub open spec fn multiple_targets_text(candidates: Seq<Seq<char>>) -> Seq<char> {
    ("There are multiple potential untie targets. Please choose one manually.\nThe following features are candidates:\n  ")@
        + join(candidates, ("\n  ")@)
}

impl UntieCommand {
    /// The positions, in order, of the features whose managed files
    /// (`feature_files`) hold every file that the commit changed.
    pub fn find_features_that_contain_files(files_of_commit: &Vec<String>, feature_files: &Vec<Vec<String>>) -> (r:
        Vec<usize>)
        ensures
            forall|i: int, j: int| 0 <= i < j < r@.len() ==> r@[i] < r@[j],
            forall|i: int|
                0 <= i < r@.len() ==> r@[i] < feature_files@.len() && holds_all(
                    views(feature_files@[r@[i] as int]@),
                    views(files_of_commit@),
                ),
            forall|k: int|
                0 <= k < feature_files@.len() && holds_all(
                    views(#[trigger] feature_files@[k]@),
                    views(files_of_commit@),
                ) ==> r@.contains(k as usize),
    {
        let mut out: Vec<usize> = Vec::new();
        let mut k: usize = 0;
        while k < feature_files.len()
            invariant
                k <= feature_files@.len(),
                forall|i: int, j: int| 0 <= i < j < out@.len() ==> out@[i] < out@[j],
                forall|i: int| 0 <= i < out@.len() ==> out@[i] < k,
                forall|i: int|
                    0 <= i < out@.len() ==> holds_all(
                        views(feature_files@[out@[i] as int]@),
                        views(files_of_commit@),
                    ),
                forall|x: int|
                    0 <= x < k && holds_all(views(#[trigger] feature_files@[x]@), views(files_of_commit@))
                        ==> out@.contains(x as usize),
            decreases feature_files@.len() - k,
        {
            let files = &feature_files[k];
            let mut found_all = true;
            let mut i: usize = 0;
            while i < files_of_commit.len()
                invariant
                    i <= files_of_commit@.len(),
                    found_all <==> forall|j: int|
                        0 <= j < i ==> views(files@).contains(#[trigger] views(files_of_commit@)[j]),
                decreases files_of_commit@.len() - i,
            {
                assert(views(files_of_commit@)[i as int] == files_of_commit@[i as int]@);
                if !vec_contains(files, &files_of_commit[i]) {
                    found_all = false;
                }
                i = i + 1;
            }
            let ghost before = out@;
            if found_all {
                out.push(k);
                assert(out@.last() == k);
            }
            proof {
                assert forall|x: int|
                    0 <= x < k + 1 && holds_all(
                        views(#[trigger] feature_files@[x]@),
                        views(files_of_commit@),
                    ) implies out@.contains(x as usize) by {
                    if x < k {
                        assert(before.contains(x as usize));
                        let w = choose|w: int| 0 <= w < before.len() && before[w] == x as usize;
                        assert(out@[w] == x as usize);
                    } else {
                        assert(out@[out@.len() - 1] == k);
                    }
                }
            }
            k = k + 1;
        }
        out
    }

    /// The commit that untying the commit `short_hash` works from, read from
    /// the derivation metadata found in it: the commit its pointer names. A
    /// commit without metadata, or with the derivation's data itself, cannot
    /// be untied.
    pub fn untie_pointer(short_hash: &str, metadata: Option<&DerivationMetadata>) -> (r: Result<
        CommitHash,
        CommandError,
    >)
        ensures
            metadata is None ==> (r matches Err(e) && e@ == ("fatal: commit '")@ + short_hash@
                + ("' does not contain derivation metadata pointer")@),
            metadata matches Some(m) ==> (m.spec_data() is Some ==> (r matches Err(e) && e@
                == ("fatal: commit '")@ + short_hash@
                + ("' is a dedicated derivation commit and cannot be untied")@)),
            metadata matches Some(m) ==> (m.spec_data() is None ==> (r matches Ok(c) && c@
                == m.spec_previous())),
    {
        match metadata {
            None => {
                let mut s = String::from_str("fatal: commit '");
                s.append(short_hash);
                s.append("' does not contain derivation metadata pointer");
                Err(CommandError::from_message(s))
            },
            Some(m) => match m.get_data() {
                Some(_) => {
                    let mut s = String::from_str("fatal: commit '");
                    s.append(short_hash);
                    s.append("' is a dedicated derivation commit and cannot be untied");
                    Err(CommandError::from_message(s))
                },
                None => Ok(m.get_previous().clone()),
            },
        }
    }

    /// Which feature takes the commit where none was named, given the
    /// features (as shown) that hold all files the commit changed: none is an
    /// error; with one, the first feature of the product (position 0); more
    /// than one is an error that lists them.
    pub fn untie_target(candidates: &Vec<String>) -> (r: Result<usize, CommandError>)
        ensures
            candidates@.len() == 0 ==> (r matches Err(e) && e@
                == ("There are no features matching all changed files. Please choose one manually.")@),
            candidates@.len() == 1 ==> r == Ok::<usize, CommandError>(0),
            candidates@.len() > 1 ==> (r matches Err(e) && e@ == multiple_targets_text(views(candidates@))),
    {
        if candidates.len() == 0 {
            Err(
                CommandError::new(
                    "There are no features matching all changed files. Please choose one manually.",
                ),
            )
        } else if candidates.len() == 1 {
            Ok(0)
        } else {
            let mut s = String::from_str(
                "There are multiple potential untie targets. Please choose one manually.\nThe following features are candidates:\n  ",
            );
            let all = join_str(candidates, "\n  ");
            s.append(all.as_str());
            Err(CommandError::from_message(s))
        }
    }

    /// What the cherry-pick onto the feature came to: the message to show and
    /// whether to go back to the product branch; a failure (with git's
    /// `error`) returns to the product and is an error.
    pub fn untie_outcome(outcome: MergeOutcome, error: &str) -> (r: Result<(String, bool), CommandError>)
        ensures
            outcome == MergeOutcome::UpToDate ==> (r matches Ok((m, back)) && m@
                == ("Skipped: feature is up-to-date.")@ && back),
            outcome == MergeOutcome::Conflict ==> (r matches Ok((m, back)) && m@
                == ("CONFLICT; Please fix all conflicts, then commit your changes.")@ && !back),
            outcome == MergeOutcome::Failed ==> (r matches Err(e) && e@ == ("Cannot untie: ")@ + error@),
            outcome == MergeOutcome::Success ==> (r matches Ok((m, back)) && m@
                == ("Please review the changes made and commit them afterwards.")@ && !back),
    {
        match outcome {
            MergeOutcome::UpToDate => Ok((String::from_str("Skipped: feature is up-to-date."), true)),
            MergeOutcome::Conflict => Ok(
                (String::from_str("CONFLICT; Please fix all conflicts, then commit your changes."), false),
            ),
            MergeOutcome::Failed => {
                let mut s = String::from_str("Cannot untie: ");
                s.append(error);
                Err(CommandError::from_message(s))
            },
            MergeOutcome::Success => Ok(
                (String::from_str("Please review the changes made and commit them afterwards."), false),
            ),
        }
    }
}

} // verus!
