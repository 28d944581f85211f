//! The errors of the tree model.
use vstd::prelude::*;

verus! {

/// A node has another type than the one asked for.
#[derive(Debug)]
pub struct WrongNodeTypeError {
    msg: String,
}

impl WrongNodeTypeError {
    pub fn new(msg: String) -> (r: Self)
        ensures
            r.spec_message() == msg@,
    {
        Self { msg }
    }

    pub closed spec fn spec_message(&self) -> Seq<char> {
        self.msg@
    }

    /// The message, for display.
    pub fn message(&self) -> (r: &String)
        ensures
            r@ == self.spec_message(),
    {
        &self.msg
    }
}

/// No node exists at a path.
#[derive(Debug)]
pub struct PathNotFoundError {
    msg: String,
}

impl PathNotFoundError {
    pub fn new(msg: String) -> (r: Self)
        ensures
            r.spec_message() == msg@,
    {
        Self { msg }
    }

    pub closed spec fn spec_message(&self) -> Seq<char> {
        self.msg@
    }

    /// The message, for display.
    pub fn message(&self) -> (r: &String)
        ensures
            r@ == self.spec_message(),
    {
        &self.msg
    }
}

/// Why a path could not be resolved in the tree.
#[derive(Debug)]
pub enum ModelError {
    PathNotFound(PathNotFoundError),
    WrongNodeType(WrongNodeTypeError),
}

} // verus!
