//! The decisions of the command that manages products.
use crate::cli::def::CommandError;
use crate::model::node_type::NodeType;
use crate::model::qualified_path::NormalizedPath;
use vstd::prelude::*;
use vstd::string::*;

verus! {

/// The command that creates, deletes and shows products.
#[derive(Debug, Clone, Copy)]
pub struct ProductCommand;

/// Whether a node type is a product, with or without a branch.
pub open spec fn is_product(t: NodeType) -> bool {
    t == NodeType::ConcreteProduct || t == NodeType::AbstractProduct
}

impl ProductCommand {
    /// Where a new product goes, from a branch of type `current` at
    /// `current_path` in an area whose product root is at `product_root`:
    /// under the current product, or under the area's product root; from any
    /// other branch it cannot be created.
    pub fn creation_base(current: NodeType, current_path: &NormalizedPath, product_root: &NormalizedPath) -> (r:
        Result<NormalizedPath, CommandError>)
        ensures
            is_product(current) ==> (r matches Ok(p) && p@ == current_path@),
            current == NodeType::ConcreteArea ==> (r matches Ok(p) && p@ == product_root@),
            !is_product(current) && current != NodeType::ConcreteArea ==> (r matches Err(e) && e@
                == ("Cannot create product: Current branch is not a product or area branch")@),
    {
        match current {
            NodeType::ConcreteProduct | NodeType::AbstractProduct => Ok(current_path.clone()),
            NodeType::ConcreteArea => Ok(product_root.clone()),
            _ => Err(
                CommandError::new("Cannot create product: Current branch is not a product or area branch"),
            ),
        }
    }

    /// What a product to delete is read relative to: the current product,
    /// or otherwise the product root of the area.
    pub fn deletion_base(current: NodeType, current_path: &NormalizedPath, product_root: &NormalizedPath) -> (r:
        NormalizedPath)
        ensures
            is_product(current) ==> r@ == current_path@,
            !is_product(current) ==> r@ == product_root@,
    {
        match current {
            NodeType::ConcreteProduct | NodeType::AbstractProduct => current_path.clone(),
            _ => product_root.clone(),
        }
    }
}

} // verus!
