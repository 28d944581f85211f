//! The decisions and messages of the command that derives a product: which
//! action a call asks for, and what each step reports.
use crate::cli::common::format_command_help;
use crate::spl::derivation::{entry_views, DerivationState, MergeEntryView, NormalizedMergeStatistic};
use crate::spl::error::{ContinueDerivationError, InitializeDerivationError, UpdateProductError};
use crate::text::{count_string, spec_digits};
use vstd::prelude::*;
use vstd::string::*;

verus! {

/// The command that derives a product.
#[derive(Debug, Clone, Copy)]
pub struct DeriveCommand;

/// What a call of the derive command does.
#[derive(Debug, Clone, Copy, PartialEq, Eq, Structural)]
pub enum DeriveAction {
    Abort,
    Initialize,
    Continue,
    Update,
    FromFile,
}

/// `"tangl derive --continue"`, quoted.
pub open spec fn continue_command_text() -> Seq<char> {
    seq!['"'] + ("tangl derive --continue")@ + seq!['"']
}

/// The hint after a derivation stopped at conflicts.
pub open spec fn fix_conflicts_text() -> Seq<char> {
    ("\nFix all conflicts, then run ")@ + continue_command_text() + (" to commence the derivation.")@
}

/// The hint where a derivation is already in progress.
pub open spec fn in_progress_hint_text() -> Seq<char> {
    ("fatal: a derivation is already in progress")@ + ("\n")@ + ("  (Use ")@ + continue_command_text()
        + (" to continue the derivation)")@ + ("\n")@ + ("  (Use ")@ + seq!['"']
        + ("tangl derive --reset")@ + seq!['"'] + (" to reset to the last state)")@ + ("\n")@
        + ("  (Use ")@ + seq!['"'] + ("tangl derive --abort")@ + seq!['"'] + (" to abort the derivation)")@
}

/// The hint after a derivation stopped at conflicts: fix them, then go on.
pub fn fix_conflicts_hint() -> (r: String)
    ensures
        r@ == fix_conflicts_text(),
{
    let mut s = String::from_str("\nFix all conflicts, then run ");
    let cmd = format_command_help("tangl derive --continue");
    s.append(cmd.as_str());
    s.append(" to commence the derivation.");
    s
}

/// The hint where a derivation is already in progress: how to continue,
/// reset or abort it.
pub fn initialize_error_hint() -> (r: String)
    ensures
        r@ == in_progress_hint_text(),
{
    let mut s = String::from_str("fatal: a derivation is already in progress");
    s.append("\n");
    s.append("  (Use ");
    let c = format_command_help("tangl derive --continue");
    s.append(c.as_str());
    s.append(" to continue the derivation)");
    s.append("\n");
    s.append("  (Use ");
    let r = format_command_help("tangl derive --reset");
    s.append(r.as_str());
    s.append(" to reset to the last state)");
    s.append("\n");
    s.append("  (Use ");
    let a = format_command_help("tangl derive --abort");
    s.append(a.as_str());
    s.append(" to abort the derivation)");
    s
}

/// Whether an entry is among `old`.
pub open spec fn among(old: Seq<MergeEntryView>, e: MergeEntryView) -> bool {
    old.contains(e)
}

impl DeriveCommand {
    /// The action of a call: aborting first, then starting with the features
    /// given, continuing, updating, and last starting from a file. A call
    /// asks for one of them.
    pub fn choose_action(abort: bool, has_features: bool, continue_derivation: bool, update: bool, from_file: bool) -> (r:
        DeriveAction)
        requires
            abort || has_features || continue_derivation || update || from_file,
        ensures
            r == if abort {
                DeriveAction::Abort
            } else if has_features {
                DeriveAction::Initialize
            } else if continue_derivation {
                DeriveAction::Continue
            } else if update {
                DeriveAction::Update
            } else {
                DeriveAction::FromFile
            },
    {
        if abort {
            DeriveAction::Abort
        } else if has_features {
            DeriveAction::Initialize
        } else if continue_derivation {
            DeriveAction::Continue
        } else if update {
            DeriveAction::Update
        } else {
            DeriveAction::FromFile
        }
    }

    /// The report of an abort: the derivation `id` and the commit it reset
    /// to.
    pub fn abort_messages(id: &str, initial_commit: &str) -> (r: Vec<String>)
        ensures
            r@.len() == 2,
            r@[0]@ == ("Successfully aborted derivation ")@ + id@,
            r@[1]@ == ("Reset to state before derivation (")@ + initial_commit@ + (")")@,
    {
        let mut first = String::from_str("Successfully aborted derivation ");
        first.append(id);
        let mut second = String::from_str("Reset to state before derivation (");
        second.append(initial_commit);
        second.append(")");
        let mut v: Vec<String> = Vec::new();
        v.push(first);
        v.push(second);
        v
    }

    /// The preview after starting a derivation in `state`: in progress, the
    /// pending chain as shown (`chain_display`), preceded by a note where the
    /// order was optimized, and followed by the number of conflicts expected;
    /// otherwise that the product is up to date.
    pub fn initialize_hint(state: DerivationState, optimize: bool, chain_display: &str, n_conflicts: usize) -> (r:
        Vec<String>)
        ensures
            state == DerivationState::Idle ==> r@.len() == 1 && r@[0]@ == ("Product already up to date.")@,
            state == DerivationState::InProgress ==> {
                let k: int = if optimize { 1 } else { 0 };
                &&& r@.len() == 3 + k
                &&& r@[0]@ == ("Derivation Preview\n")@
                &&& optimize ==> r@[1]@ == ("Suggesting the following merge order:")@
                &&& r@[1 + k]@ == chain_display@
                &&& n_conflicts > 0 ==> r@[2 + k]@ == ("\nExpecting ")@ + spec_digits(n_conflicts as nat) + (" conflicts")@
                &&& n_conflicts == 0 ==> r@[2 + k]@ == ("\nExpecting no conflicts")@
            },
    {
        let mut v: Vec<String> = Vec::new();
        match state {
            DerivationState::Idle => {
                v.push(String::from_str("Product already up to date."));
            },
            DerivationState::InProgress => {
                v.push(String::from_str("Derivation Preview\n"));
                if optimize {
                    v.push(String::from_str("Suggesting the following merge order:"));
                }
                v.push(String::from_str(chain_display));
                if n_conflicts > 0 {
                    let mut s = String::from_str("\nExpecting ");
                    let n = count_string(n_conflicts);
                    s.append(n.as_str());
                    s.append(" conflicts");
                    v.push(s);
                } else {
                    v.push(String::from_str("\nExpecting no conflicts"));
                }
            },
        }
        v
    }

    /// The features that a step completed: those completed after it that
    /// were not completed before, in order.
    pub fn newly_completed(old: &Vec<NormalizedMergeStatistic>, next: &Vec<NormalizedMergeStatistic>) -> (r: Vec<
        NormalizedMergeStatistic,
    >)
        ensures
            entry_views(r@) == entry_views(next@).filter(|e: MergeEntryView| !among(entry_views(old@), e)),
    {
        let ghost ov = entry_views(old@);
        let ghost nv = entry_views(next@);
        let mut out: Vec<NormalizedMergeStatistic> = Vec::new();
        let mut i: usize = 0;
        while i < next.len()
            invariant
                i <= next@.len(),
                ov == entry_views(old@),
                nv == entry_views(next@),
                entry_views(out@) == nv.subrange(0, i as int).filter(|e: MergeEntryView| !among(ov, e)),
            decreases next@.len() - i,
        {
            let mut seen = false;
            let mut j: usize = 0;
            while j < old.len()
                invariant
                    j <= old@.len(),
                    i < next@.len(),
                    ov == entry_views(old@),
                    seen <==> exists|k: int| 0 <= k < j && ov[k] == next@[i as int]@,
                decreases old@.len() - j,
            {
                if old[j].equals(&next[i]) {
                    assert(ov[j as int] == old@[j as int]@);
                    seen = true;
                } else {
                    assert(ov[j as int] == old@[j as int]@);
                }
                j = j + 1;
            }
            proof {
                if seen {
                    let k = choose|k: int| 0 <= k < j && ov[k] == next@[i as int]@;
                    assert(ov.contains(next@[i as int]@));
                } else {
                    assert(!ov.contains(next@[i as int]@));
                }
                assert(nv[i as int] == next@[i as int]@);
                assert(nv.subrange(0, i + 1).drop_last() =~= nv.subrange(0, i as int));
                assert(nv.subrange(0, i + 1).last() == nv[i as int]);
                reveal(Seq::filter);
            }
            let ghost before = out@;
            if !seen {
                let e = next[i].clone();
                out.push(e);
                assert(entry_views(out@) =~= entry_views(before).push(e@));
            } else {
                assert(entry_views(out@) == entry_views(before));
            }
            i = i + 1;
        }
        assert(nv.subrange(0, i as int) =~= nv);
        out
    }

    /// `Merged <n> feature(s)`
    pub fn merged_message(n: usize) -> (r: String)
        ensures
            r@ == ("Merged ")@ + spec_digits(n as nat) + (" feature(s)")@,
    {
        let mut s = String::from_str("Merged ");
        let d = count_string(n);
        s.append(d.as_str());
        s.append(" feature(s)");
        s
    }

    /// The report after a step: with `n_remaining` features left, their
    /// number (the chain and the hint follow); with none, that the
    /// derivation is complete.
    pub fn remaining_message(n_remaining: usize) -> (r: String)
        ensures
            n_remaining > 0 ==> r@ == ("\n")@ + spec_digits(n_remaining as nat) + (" feature(s) remain(s)")@,
            n_remaining == 0 ==> r@ == ("\nAll features merged. Derivation complete")@,
    {
        if n_remaining > 0 {
            let mut s = String::from_str("\n");
            let d = count_string(n_remaining);
            s.append(d.as_str());
            s.append(" feature(s) remain(s)");
            s
        } else {
            String::from_str("\nAll features merged. Derivation complete")
        }
    }

    /// The message of a failed start: where a derivation is in progress, the
    /// hint how to go on; otherwise the error's own message.
    pub fn initialize_error_message(error: &InitializeDerivationError) -> (r: String)
        ensures
            error is DerivationInProgress ==> r@ == in_progress_hint_text(),
            error matches InitializeDerivationError::Git(e) ==> r@ == e.spec_text(),
    {
        match error {
            InitializeDerivationError::DerivationInProgress => initialize_error_hint(),
            _ => error.to_string(),
        }
    }

    /// The message of a failed update: where a derivation is in progress, the
    /// hint how to go on; otherwise the error's own message.
    pub fn update_error_message(error: &UpdateProductError) -> (r: String)
        ensures
            error is DerivationInProgress ==> r@ == in_progress_hint_text(),
            error matches UpdateProductError::Git(e) ==> r@ == e.spec_text(),
            error matches UpdateProductError::WrongNodeType(e) ==> r@ == e.spec_message(),
            error matches UpdateProductError::PathNotFound(e) ==> r@ == e.spec_message(),
    {
        match error {
            UpdateProductError::DerivationInProgress => initialize_error_hint(),
            _ => error.to_string(),
        }
    }

    /// The message of a failed step: where no derivation is in progress,
    /// that there is nothing to continue; otherwise the error's own message.
    pub fn continue_error_message(error: &ContinueDerivationError) -> (r: String)
        ensures
            error is NoDerivationInProgress ==> r@
                == ("No derivation in progress, there is nothing to continue")@,
            error matches ContinueDerivationError::Git(e) ==> r@ == e.spec_text(),
            error matches ContinueDerivationError::WrongNodeType(e) ==> r@ == e.spec_message(),
            error matches ContinueDerivationError::PathNotFound(e) ==> r@ == e.spec_message(),
    {
        match error {
            ContinueDerivationError::NoDerivationInProgress => String::from_str(
                "No derivation in progress, there is nothing to continue",
            ),
            _ => error.to_string(),
        }
    }
}

} // verus!
