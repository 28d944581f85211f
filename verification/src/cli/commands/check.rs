//! The decisions of the command that tests paths for merge conflicts: which
//! test strategy a call asks for, and what it tests by default.
use crate::cli::def::CommandError;
use crate::model::node_type::NodeType;
use crate::text::contains_char_str;
use vstd::prelude::*;
use vstd::string::*;

verus! {

/// The command that tests paths for merge conflicts.
#[derive(Debug, Clone, Copy)]
pub struct CheckCommand;

/// How paths are tested against each other.
#[derive(Debug, Clone, Copy, PartialEq, Eq, Structural)]
pub enum CheckStrategy {
    /// Every ordered choice of this many paths, each merged in order.
    KPermutations(usize),
    /// The first path as base, every ordered choice of this many of the
    /// others merged onto it.
    PermutationsAgainstBase(usize),
    /// The paths merged one after another in the order given.
    ByOrder,
    /// The first path against each of the others.
    OneToN,
}

/// How many strategies a call chose.
pub open spec fn n_chosen(
    permutations: Option<usize>,
    perm_to_base: Option<usize>,
    by_order: bool,
    one_to_n: bool,
) -> int {
    (if permutations is Some { 1int } else { 0int }) + (if perm_to_base is Some { 1int } else { 0int })
        + (if by_order { 1int } else { 0int }) + (if one_to_n { 1int } else { 0int })
}

impl CheckCommand {
    /// The strategy that a call chose for `n_paths` paths. Fewer than two
    /// paths is an error whatever was chosen; otherwise at most one strategy
    /// is chosen (the options exclude each other), and none is an error.
    pub fn choose_strategy(
        n_paths: usize,
        permutations: Option<usize>,
        perm_to_base: Option<usize>,
        by_order: bool,
        one_to_n: bool,
    ) -> (r: Result<CheckStrategy, CommandError>)
        requires
            n_paths >= 2 ==> n_chosen(permutations, perm_to_base, by_order, one_to_n) <= 1,
        ensures
            n_paths < 2 ==> (r matches Err(e) && e@
                == ("At least two paths are required to perform merge tests")@),
            n_paths >= 2 && n_chosen(permutations, perm_to_base, by_order, one_to_n) == 0 ==> (r matches Err(
                e,
            ) && e@ == ("Please choose a test strategy")@),
            n_paths >= 2 ==> (permutations matches Some(k) ==> r == Ok::<CheckStrategy, CommandError>(
                CheckStrategy::KPermutations(k),
            )),
            n_paths >= 2 ==> (perm_to_base matches Some(k) ==> r == Ok::<CheckStrategy, CommandError>(
                CheckStrategy::PermutationsAgainstBase(k),
            )),
            n_paths >= 2 && by_order ==> r == Ok::<CheckStrategy, CommandError>(CheckStrategy::ByOrder),
            n_paths >= 2 && one_to_n ==> r == Ok::<CheckStrategy, CommandError>(CheckStrategy::OneToN),
    {
        if n_paths < 2 {
            return Err(CommandError::new("At least two paths are required to perform merge tests"));
        }
        match (permutations, perm_to_base) {
            (Some(k), _) => Ok(CheckStrategy::KPermutations(k)),
            (None, Some(k)) => Ok(CheckStrategy::PermutationsAgainstBase(k)),
            (None, None) => {
                if by_order {
                    Ok(CheckStrategy::ByOrder)
                } else if one_to_n {
                    Ok(CheckStrategy::OneToN)
                } else {
                    Err(CommandError::new("Please choose a test strategy"))
                }
            },
        }
    }

    /// What a call without paths and strategy tests, on a branch of type
    /// `current` whose product (if it is one) was derived with `n_derived`
    /// features: a feature against each other feature; a derived product
    /// with each ordering of one of its features against it; otherwise
    /// nothing.
    pub fn default_strategy(current: NodeType, n_derived: usize) -> (r: Result<CheckStrategy, CommandError>)
        ensures
            current == NodeType::ConcreteFeature ==> r == Ok::<CheckStrategy, CommandError>(
                CheckStrategy::OneToN,
            ),
            current == NodeType::ConcreteProduct && n_derived == 0 ==> (r matches Err(e) && e@
                == ("Nothing to check against: product not derived yet")@),
            current == NodeType::ConcreteProduct && n_derived > 0 ==> r == Ok::<
                CheckStrategy,
                CommandError,
            >(CheckStrategy::PermutationsAgainstBase(1)),
            current != NodeType::ConcreteFeature && current != NodeType::ConcreteProduct ==> (r matches Err(
                e,
            ) && e@ == ("No default available for current node type\nPlease supply test paths and a strategy")@),
    {
        match current {
            NodeType::ConcreteFeature => Ok(CheckStrategy::OneToN),
            NodeType::ConcreteProduct => {
                if n_derived == 0 {
                    Err(CommandError::new("Nothing to check against: product not derived yet"))
                } else {
                    Ok(CheckStrategy::PermutationsAgainstBase(1))
                }
            },
            _ => Err(
                CommandError::new(
                    "No default available for current node type\nPlease supply test paths and a strategy",
                ),
            ),
        }
    }

    /// Whether a path argument is a glob pattern: it holds `*`, `[` or `]`.
    pub fn is_glob_pattern(path: &str) -> (r: bool)
        ensures
            r == (path@.contains('*') || path@.contains('[') || path@.contains(']')),
    {
        contains_char_str(path, '*') || contains_char_str(path, '[') || contains_char_str(path, ']')
    }
}

} // verus!
