//! Markers for whether a node of the tree carries a branch.
use vstd::prelude::*;

verus! {

/// Whether a node carries a branch, as a type.
pub trait BranchType {}

/// A node with a branch.
#[derive(Clone, Debug, PartialEq, Eq, Hash)]
pub struct Branch;

impl BranchType for Branch {}

/// A node without a branch.
#[derive(Clone, Debug, PartialEq, Eq, Hash)]
pub struct NoBranch;

impl BranchType for NoBranch {}

/// A node with or without a branch.
#[derive(Clone, Debug, PartialEq, Eq, Hash)]
pub struct AnyBranchType;

impl BranchType for AnyBranchType {}

/// An area whose branch kind is `T`.
#[derive(Debug)]
pub struct Area<T: BranchType> {
    _kind: std::marker::PhantomData<T>,
}

} // verus!
