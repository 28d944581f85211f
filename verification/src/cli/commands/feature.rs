//! The decisions of the command that manages features.
use crate::cli::def::CommandError;
use crate::model::node_type::NodeType;
use crate::model::qualified_path::{NormalizedPath, QPathView};
use vstd::prelude::*;
use vstd::string::*;

verus! {

/// The command that creates, deletes and shows features.
#[derive(Debug, Clone, Copy)]
pub struct FeatureCommand;

/// Whether a node type is a feature, with or without a branch.
pub open spec fn is_feature(t: NodeType) -> bool {
    t == NodeType::ConcreteFeature || t == NodeType::AbstractFeature
}

impl FeatureCommand {
    /// Where a new feature goes, from a branch of type `current` at
    /// `current_path` in an area whose feature root is at `feature_root`:
    /// under the current feature, or under the area's feature root; from any
    /// other branch it cannot be created.
    pub fn creation_base(current: NodeType, current_path: &NormalizedPath, feature_root: &NormalizedPath) -> (r:
        Result<NormalizedPath, CommandError>)
        ensures
            is_feature(current) ==> (r matches Ok(p) && p@ == current_path@),
            current == NodeType::ConcreteArea ==> (r matches Ok(p) && p@ == feature_root@),
            !is_feature(current) && current != NodeType::ConcreteArea ==> (r matches Err(e) && e@
                == ("Cannot create feature: Current branch is not a feature or area branch")@),
    {
        match current {
            NodeType::ConcreteFeature | NodeType::AbstractFeature => Ok(current_path.clone()),
            NodeType::ConcreteArea => Ok(feature_root.clone()),
            _ => Err(
                CommandError::new("Cannot create feature: Current branch is not a feature or area branch"),
            ),
        }
    }

    /// What a feature to delete is read relative to: the current feature,
    /// or otherwise the feature root of the area.
    pub fn deletion_base(current: NodeType, current_path: &NormalizedPath, feature_root: &NormalizedPath) -> (r:
        NormalizedPath)
        ensures
            is_feature(current) ==> r@ == current_path@,
            !is_feature(current) ==> r@ == feature_root@,
    {
        match current {
            NodeType::ConcreteFeature | NodeType::AbstractFeature => current_path.clone(),
            _ => feature_root.clone(),
        }
    }
}

} // verus!
