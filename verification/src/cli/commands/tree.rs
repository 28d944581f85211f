//! The decisions of the command that lists the tree.
use crate::model::qualified_path::{spec_from_segments, NormalizedPath, QPathView};
use vstd::prelude::*;

verus! {

/// The command that lists the children of a node, or its whole subtree.
#[derive(Debug, Clone, Copy)]
pub struct LSCommand;

/// A listed path without a trailing empty segment (a trailing `/`).
pub open spec fn listing_target(p: QPathView) -> QPathView {
    if p.segments.len() > 1 && p.segments.last().len() == 0 {
        spec_from_segments(p.segments.subrange(0, p.segments.len() - 1))
    } else {
        p
    }
}

impl LSCommand {
    /// The node to list for the path asked for: the path without a trailing
    /// `/`.
    pub fn target(path: NormalizedPath) -> (r: NormalizedPath)
        ensures
            r@ == listing_target(path@),
    {
        if path.is_dir() {
            path.strip_n_right(path.len() - 1)
        } else {
            path
        }
    }
}

} // verus!
