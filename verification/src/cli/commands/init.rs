//! The command that initializes a repository.
use vstd::prelude::*;

verus! {

/// The command that initializes a repository with its main branch.
#[derive(Debug, Clone, Copy)]
pub struct InitCommand;

} // verus!
