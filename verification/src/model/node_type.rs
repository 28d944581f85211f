//! The types of the nodes of the repository tree, and the symbolic types that
//! stand for one or several of them.
use crate::model::node::BranchData;
use crate::text::str_eq;
use vstd::prelude::*;
use vstd::string::*;

verus! {

/// The name of the node under an area that holds the features.
pub const FEATURE_ROOT: &'static str = "feature";

/// The name of the node under an area that holds the products.
pub const PRODUCT_ROOT: &'static str = "product";

/// The name of the node under an area that holds temporary branches.
pub const TEMPORARY: &'static str = "tmp";

/// The type of a node of the repository tree.
#[derive(Debug, Clone, Copy, PartialEq, Eq, Structural, Hash)]
pub enum NodeType {
    ConcreteFeature,
    AbstractFeature,
    ConcreteProduct,
    AbstractProduct,
    FeatureRoot,
    ProductRoot,
    ConcreteArea,
    VirtualRoot,
    Temporary,
    Unknown,
}

/// How a node type is shown: its colour and emphasis.
#[derive(Debug, Clone, Copy, PartialEq, Eq, Structural)]
pub enum DisplayStyle {
    /// Yellow, bold.
    AreaStyle,
    /// Bright purple, bold, italic.
    FeatureRootStyle,
    /// Purple.
    FeatureStyle,
    /// Orange (231, 100, 18), bold, italic.
    ProductRootStyle,
    /// Orange (231, 100, 18).
    ProductStyle,
    /// No styling.
    Plain,
}

/// The type of a child named `name`, whose branch data is `has_branch`, under
/// a node of type `parent`.
pub open spec fn spec_next_type(parent: NodeType, name: Seq<char>, has_branch: bool) -> NodeType {
    match parent {
        NodeType::ConcreteFeature | NodeType::AbstractFeature | NodeType::FeatureRoot => {
            if has_branch {
                NodeType::ConcreteFeature
            } else {
                NodeType::AbstractFeature
            }
        },
        NodeType::ConcreteProduct | NodeType::AbstractProduct | NodeType::ProductRoot => {
            if has_branch {
                NodeType::ConcreteProduct
            } else {
                NodeType::AbstractProduct
            }
        },
        NodeType::VirtualRoot => NodeType::ConcreteArea,
        NodeType::ConcreteArea => {
            if name == seq!['f', 'e', 'a', 't', 'u', 'r', 'e'] {
                NodeType::FeatureRoot
            } else if name == seq!['p', 'r', 'o', 'd', 'u', 'c', 't'] {
                NodeType::ProductRoot
            } else if name == seq!['t', 'm', 'p'] {
                NodeType::Temporary
            } else {
                NodeType::Unknown
            }
        },
        NodeType::Temporary => NodeType::Temporary,
        NodeType::Unknown => NodeType::Unknown,
    }
}

pub open spec fn spec_type_name(t: NodeType) -> Seq<char> {
    match t {
        NodeType::VirtualRoot => seq!['v', 'i', 'r', 't', 'u', 'a', 'l', ' ', 'r', 'o', 'o', 't'],
        NodeType::ConcreteArea => seq!['a', 'r', 'e', 'a'],
        NodeType::FeatureRoot => seq!['f', 'e', 'a', 't', 'u', 'r', 'e', ' ', 'r', 'o', 'o', 't'],
        NodeType::ProductRoot => seq!['p', 'r', 'o', 'd', 'u', 'c', 't', ' ', 'r', 'o', 'o', 't'],
        NodeType::ConcreteFeature => seq!['f', 'e', 'a', 't', 'u', 'r', 'e'],
        NodeType::AbstractFeature => seq![
            'a', 'b', 's', 't', 'r', 'a', 'c', 't', ' ', 'f', 'e', 'a', 't', 'u', 'r', 'e'
        ],
        NodeType::ConcreteProduct => seq!['p', 'r', 'o', 'd', 'u', 'c', 't'],
        NodeType::AbstractProduct => seq![
            'a', 'b', 's', 't', 'r', 'a', 'c', 't', ' ', 'p', 'r', 'o', 'd', 'u', 'c', 't'
        ],
        NodeType::Temporary => seq!['t', 'e', 'm', 'p', 'o', 'r', 'a', 'r', 'y'],
        NodeType::Unknown => Seq::empty(),
    }
}

pub open spec fn spec_short_type_name(t: NodeType) -> Seq<char> {
    match t {
        NodeType::VirtualRoot => seq!['v', 'r'],
        NodeType::ConcreteArea => seq!['a'],
        NodeType::FeatureRoot => seq!['f', 'r'],
        NodeType::ProductRoot => seq!['p', 'r'],
        NodeType::ConcreteFeature => seq!['f'],
        NodeType::AbstractFeature => seq!['f', '\''],
        NodeType::ConcreteProduct => seq!['p'],
        NodeType::AbstractProduct => seq!['p', '\''],
        NodeType::Temporary => seq!['t', 'e', 'm', 'p'],
        NodeType::Unknown => Seq::empty(),
    }
}

pub open spec fn spec_display_style(t: NodeType) -> DisplayStyle {
    match t {
        NodeType::ConcreteArea => DisplayStyle::AreaStyle,
        NodeType::FeatureRoot => DisplayStyle::FeatureRootStyle,
        NodeType::ConcreteFeature => DisplayStyle::FeatureStyle,
        NodeType::ProductRoot => DisplayStyle::ProductRootStyle,
        NodeType::ConcreteProduct => DisplayStyle::ProductStyle,
        _ => DisplayStyle::Plain,
    }
}

fn lit(s: &str) -> (r: String)
    ensures
        r@ == s@,
{
    String::from_str(s)
}

impl NodeType {
    /// The type of a child named `name` with branch data `metadata` under a
    /// node of this type.
    pub fn decide_next_type(&self, name: &str, metadata: &BranchData) -> (r: NodeType)
        ensures
            r == spec_next_type(*self, name@, metadata@.branch is Some),
            (*self == NodeType::ConcreteProduct || *self == NodeType::AbstractProduct || *self
                == NodeType::ProductRoot) ==> (r == NodeType::ConcreteProduct || r
                == NodeType::AbstractProduct) && (r == NodeType::ConcreteProduct <==> metadata@.branch is Some),
            (*self == NodeType::ConcreteFeature || *self == NodeType::AbstractFeature || *self
                == NodeType::FeatureRoot) ==> (r == NodeType::ConcreteFeature || r
                == NodeType::AbstractFeature) && (r == NodeType::ConcreteFeature <==> metadata@.branch is Some),
    {
        match self {
            NodeType::ConcreteFeature | NodeType::AbstractFeature | NodeType::FeatureRoot => {
                if metadata.has_branch() {
                    NodeType::ConcreteFeature
                } else {
                    NodeType::AbstractFeature
                }
            },
            NodeType::ConcreteProduct | NodeType::AbstractProduct | NodeType::ProductRoot => {
                if metadata.has_branch() {
                    NodeType::ConcreteProduct
                } else {
                    NodeType::AbstractProduct
                }
            },
            NodeType::VirtualRoot => NodeType::ConcreteArea,
            NodeType::ConcreteArea => {
                proof {
                    reveal_strlit("feature");
                    reveal_strlit("product");
                    reveal_strlit("tmp");
                    assert(FEATURE_ROOT@ =~= seq!['f', 'e', 'a', 't', 'u', 'r', 'e']);
                    assert(PRODUCT_ROOT@ =~= seq!['p', 'r', 'o', 'd', 'u', 'c', 't']);
                    assert(TEMPORARY@ =~= seq!['t', 'm', 'p']);
                }
                if str_eq(name, FEATURE_ROOT) {
                    NodeType::FeatureRoot
                } else if str_eq(name, PRODUCT_ROOT) {
                    NodeType::ProductRoot
                } else if str_eq(name, TEMPORARY) {
                    NodeType::Temporary
                } else {
                    NodeType::Unknown
                }
            },
            NodeType::Temporary => NodeType::Temporary,
            NodeType::Unknown => NodeType::Unknown,
        }
    }

    /// How this type is shown.
    pub fn display_style(&self) -> (r: DisplayStyle)
        ensures
            r == spec_display_style(*self),
    {
        match self {
            NodeType::ConcreteArea => DisplayStyle::AreaStyle,
            NodeType::FeatureRoot => DisplayStyle::FeatureRootStyle,
            NodeType::ConcreteFeature => DisplayStyle::FeatureStyle,
            NodeType::ProductRoot => DisplayStyle::ProductRootStyle,
            NodeType::ConcreteProduct => DisplayStyle::ProductStyle,
            _ => DisplayStyle::Plain,
        }
    }

    pub fn get_type_name(&self) -> (r: String)
        ensures
            r@ == spec_type_name(*self),
    {
        proof {
            reveal_strlit("virtual root");
            reveal_strlit("area");
            reveal_strlit("feature root");
            reveal_strlit("product root");
            reveal_strlit("feature");
            reveal_strlit("abstract feature");
            reveal_strlit("product");
            reveal_strlit("abstract product");
            reveal_strlit("temporary");
            reveal_strlit("");
        }
        let r = match self {
            NodeType::VirtualRoot => lit("virtual root"),
            NodeType::ConcreteArea => lit("area"),
            NodeType::FeatureRoot => lit("feature root"),
            NodeType::ProductRoot => lit("product root"),
            NodeType::ConcreteFeature => lit("feature"),
            NodeType::AbstractFeature => lit("abstract feature"),
            NodeType::ConcreteProduct => lit("product"),
            NodeType::AbstractProduct => lit("abstract product"),
            NodeType::Temporary => lit("temporary"),
            NodeType::Unknown => lit(""),
        };
        assert(r@ =~= spec_type_name(*self));
        r
    }

    pub fn get_short_type_name(&self) -> (r: String)
        ensures
            r@ == spec_short_type_name(*self),
    {
        proof {
            reveal_strlit("vr");
            reveal_strlit("a");
            reveal_strlit("fr");
            reveal_strlit("pr");
            reveal_strlit("f");
            reveal_strlit("f'");
            reveal_strlit("p");
            reveal_strlit("p'");
            reveal_strlit("temp");
            reveal_strlit("");
        }
        let r = match self {
            NodeType::VirtualRoot => lit("vr"),
            NodeType::ConcreteArea => lit("a"),
            NodeType::FeatureRoot => lit("fr"),
            NodeType::ProductRoot => lit("pr"),
            NodeType::ConcreteFeature => lit("f"),
            NodeType::AbstractFeature => lit("f'"),
            NodeType::ConcreteProduct => lit("p"),
            NodeType::AbstractProduct => lit("p'"),
            NodeType::Temporary => lit("temp"),
            NodeType::Unknown => lit(""),
        };
        assert(r@ =~= spec_short_type_name(*self));
        r
    }
}

/// A set of node types that a node path can be typed with.
pub trait SymbolicNodeType: Sized {
    /// Whether a node of type `node_type` belongs to this set.
    spec fn spec_compatible(node_type: NodeType) -> bool;

    /// The name of this set, for messages.
    spec fn spec_identifier() -> Seq<char>;

    /// The name of this set, for messages.
    fn identifier() -> (r: String)
        ensures
            r@ == Self::spec_identifier(),
    ;

    fn is_compatible_to_node_type(node_type: &NodeType) -> (r: bool)
        ensures
            r == Self::spec_compatible(*node_type),
    ;

    fn is_compatible(node_type: &NodeType) -> (r: bool)
        ensures
            r == Self::spec_compatible(*node_type),
    {
        Self::is_compatible_to_node_type(node_type)
    }
}

/// Types whose children are features.
pub trait HasFeatureChildren: SymbolicNodeType {}

/// Types whose children are products.
pub trait HasProductChildren: SymbolicNodeType {}

/// Types of nodes that have a git branch.
pub trait IsGitObject: SymbolicNodeType {}

/// Types of nodes on or under an area.
pub trait IsOnOrUnderArea: SymbolicNodeType {}

#[derive(Clone, Debug, PartialEq, Eq, Hash)]
pub struct ConcreteFeature;

impl SymbolicNodeType for ConcreteFeature {
    open spec fn spec_compatible(node_type: NodeType) -> bool {
        node_type == NodeType::ConcreteFeature
    }

    open spec fn spec_identifier() -> Seq<char> {
        spec_type_name(NodeType::ConcreteFeature)
    }

    fn identifier() -> (r: String) {
        NodeType::ConcreteFeature.get_type_name()
    }

    fn is_compatible_to_node_type(node_type: &NodeType) -> (r: bool) {
        *node_type == NodeType::ConcreteFeature
    }
}

impl HasFeatureChildren for ConcreteFeature {}

impl IsGitObject for ConcreteFeature {}

impl IsOnOrUnderArea for ConcreteFeature {}

#[derive(Clone, Debug, PartialEq, Eq, Hash)]
pub struct AbstractFeature;

impl SymbolicNodeType for AbstractFeature {
    open spec fn spec_compatible(node_type: NodeType) -> bool {
        node_type == NodeType::AbstractFeature
    }

    open spec fn spec_identifier() -> Seq<char> {
        spec_type_name(NodeType::AbstractFeature)
    }

    fn identifier() -> (r: String) {
        NodeType::AbstractFeature.get_type_name()
    }

    fn is_compatible_to_node_type(node_type: &NodeType) -> (r: bool) {
        *node_type == NodeType::AbstractFeature
    }
}

impl HasFeatureChildren for AbstractFeature {}

impl IsOnOrUnderArea for AbstractFeature {}

/// A feature, with or without a branch.
#[derive(Clone, Debug, PartialEq, Eq, Hash)]
pub struct Feature;

impl SymbolicNodeType for Feature {
    open spec fn spec_compatible(node_type: NodeType) -> bool {
        node_type == NodeType::AbstractFeature || node_type == NodeType::ConcreteFeature
    }

    open spec fn spec_identifier() -> Seq<char> {
        ("generic feature")@
    }

    fn identifier() -> (r: String) {
        lit("generic feature")
    }

    fn is_compatible_to_node_type(node_type: &NodeType) -> (r: bool) {
        *node_type == NodeType::AbstractFeature || *node_type == NodeType::ConcreteFeature
    }
}

impl HasFeatureChildren for Feature {}

impl IsOnOrUnderArea for Feature {}

#[derive(Clone, Debug, PartialEq, Eq, Hash)]
pub struct FeatureRoot;

impl SymbolicNodeType for FeatureRoot {
    open spec fn spec_compatible(node_type: NodeType) -> bool {
        node_type == NodeType::FeatureRoot
    }

    open spec fn spec_identifier() -> Seq<char> {
        spec_type_name(NodeType::FeatureRoot)
    }

    fn identifier() -> (r: String) {
        NodeType::FeatureRoot.get_type_name()
    }

    fn is_compatible_to_node_type(node_type: &NodeType) -> (r: bool) {
        *node_type == NodeType::FeatureRoot
    }
}

impl HasFeatureChildren for FeatureRoot {}

impl IsOnOrUnderArea for FeatureRoot {}

#[derive(Clone, Debug, PartialEq, Eq, Hash)]
pub struct ConcreteProduct;

impl SymbolicNodeType for ConcreteProduct {
    open spec fn spec_compatible(node_type: NodeType) -> bool {
        node_type == NodeType::ConcreteProduct
    }

    open spec fn spec_identifier() -> Seq<char> {
        spec_type_name(NodeType::ConcreteProduct)
    }

    fn identifier() -> (r: String) {
        NodeType::ConcreteProduct.get_type_name()
    }

    fn is_compatible_to_node_type(node_type: &NodeType) -> (r: bool) {
        *node_type == NodeType::ConcreteProduct
    }
}

impl HasProductChildren for ConcreteProduct {}

impl IsGitObject for ConcreteProduct {}

impl IsOnOrUnderArea for ConcreteProduct {}

/// An abstract product. Its compatibility test accepts concrete products.
#[derive(Clone, Debug, PartialEq, Eq, Hash)]
pub struct AbstractProduct;

impl SymbolicNodeType for AbstractProduct {
    open spec fn spec_compatible(node_type: NodeType) -> bool {
        node_type == NodeType::ConcreteProduct
    }

    open spec fn spec_identifier() -> Seq<char> {
        spec_type_name(NodeType::AbstractProduct)
    }

    fn identifier() -> (r: String) {
        NodeType::AbstractProduct.get_type_name()
    }

    fn is_compatible_to_node_type(node_type: &NodeType) -> (r: bool) {
        *node_type == NodeType::ConcreteProduct
    }
}

impl HasProductChildren for AbstractProduct {}

impl IsOnOrUnderArea for AbstractProduct {}

/// A product, with or without a branch.
#[derive(Clone, Debug, PartialEq, Eq, Hash)]
pub struct Product;

impl SymbolicNodeType for Product {
    open spec fn spec_compatible(node_type: NodeType) -> bool {
        node_type == NodeType::ConcreteProduct || node_type == NodeType::AbstractProduct
    }

    open spec fn spec_identifier() -> Seq<char> {
        ("generic product")@
    }

    fn identifier() -> (r: String) {
        lit("generic product")
    }

    fn is_compatible_to_node_type(node_type: &NodeType) -> (r: bool) {
        *node_type == NodeType::ConcreteProduct || *node_type == NodeType::AbstractProduct
    }
}

impl HasProductChildren for Product {}

impl IsOnOrUnderArea for Product {}

#[derive(Clone, Debug, PartialEq, Eq, Hash)]
pub struct ProductRoot;

impl SymbolicNodeType for ProductRoot {
    open spec fn spec_compatible(node_type: NodeType) -> bool {
        node_type == NodeType::ProductRoot
    }

    open spec fn spec_identifier() -> Seq<char> {
        spec_type_name(NodeType::ProductRoot)
    }

    fn identifier() -> (r: String) {
        NodeType::ProductRoot.get_type_name()
    }

    fn is_compatible_to_node_type(node_type: &NodeType) -> (r: bool) {
        *node_type == NodeType::ProductRoot
    }
}

impl HasProductChildren for ProductRoot {}

impl IsOnOrUnderArea for ProductRoot {}

#[derive(Clone, Debug, PartialEq, Eq, Hash)]
pub struct ConcreteArea;

impl SymbolicNodeType for ConcreteArea {
    open spec fn spec_compatible(node_type: NodeType) -> bool {
        node_type == NodeType::ConcreteArea
    }

    open spec fn spec_identifier() -> Seq<char> {
        spec_type_name(NodeType::ConcreteArea)
    }

    fn identifier() -> (r: String) {
        NodeType::ConcreteArea.get_type_name()
    }

    fn is_compatible_to_node_type(node_type: &NodeType) -> (r: bool) {
        *node_type == NodeType::ConcreteArea
    }
}

impl IsGitObject for ConcreteArea {}

impl IsOnOrUnderArea for ConcreteArea {}

#[derive(Clone, Debug, PartialEq, Eq, Hash)]
pub struct Temporary;

impl SymbolicNodeType for Temporary {
    open spec fn spec_compatible(node_type: NodeType) -> bool {
        node_type == NodeType::Temporary
    }

    open spec fn spec_identifier() -> Seq<char> {
        spec_type_name(NodeType::Temporary)
    }

    fn identifier() -> (r: String) {
        NodeType::Temporary.get_type_name()
    }

    fn is_compatible_to_node_type(node_type: &NodeType) -> (r: bool) {
        *node_type == NodeType::Temporary
    }
}

impl IsGitObject for Temporary {}

impl IsOnOrUnderArea for Temporary {}

#[derive(Clone, Debug, PartialEq, Eq, Hash)]
pub struct VirtualRoot;

impl SymbolicNodeType for VirtualRoot {
    open spec fn spec_compatible(node_type: NodeType) -> bool {
        node_type == NodeType::VirtualRoot
    }

    open spec fn spec_identifier() -> Seq<char> {
        spec_type_name(NodeType::VirtualRoot)
    }

    fn identifier() -> (r: String) {
        NodeType::VirtualRoot.get_type_name()
    }

    fn is_compatible_to_node_type(node_type: &NodeType) -> (r: bool) {
        *node_type == NodeType::VirtualRoot
    }
}

/// Any node.
#[derive(Clone, Debug, PartialEq, Eq, Hash)]
pub struct AnyNode;

impl SymbolicNodeType for AnyNode {
    open spec fn spec_compatible(node_type: NodeType) -> bool {
        true
    }

    open spec fn spec_identifier() -> Seq<char> {
        ("any")@
    }

    fn identifier() -> (r: String) {
        lit("any")
    }

    fn is_compatible_to_node_type(_node_type: &NodeType) -> (r: bool) {
        true
    }
}

/// Any node with a git branch of its own.
#[derive(Clone, Debug, PartialEq, Eq, Hash)]
pub struct AnyGitObject;

impl SymbolicNodeType for AnyGitObject {
    open spec fn spec_compatible(node_type: NodeType) -> bool {
        node_type == NodeType::ConcreteFeature || node_type == NodeType::ConcreteProduct
            || node_type == NodeType::ConcreteArea || node_type == NodeType::Temporary
    }

    open spec fn spec_identifier() -> Seq<char> {
        ("git object")@
    }

    fn identifier() -> (r: String) {
        lit("git object")
    }

    fn is_compatible_to_node_type(node_type: &NodeType) -> (r: bool) {
        match node_type {
            NodeType::ConcreteFeature | NodeType::ConcreteProduct | NodeType::ConcreteArea
            | NodeType::Temporary => true,
            _ => false,
        }
    }
}

impl IsGitObject for AnyGitObject {}

/// Below a product root or a product, a child is a product: a concrete one
/// (a git object that the product types accept) exactly when it has a
/// branch, an abstract one otherwise. Its name plays no part.
pub proof fn law_child_of_product_side(parent: NodeType, name: Seq<char>, has_branch: bool)
    requires
        parent == NodeType::ProductRoot || parent == NodeType::ConcreteProduct || parent
            == NodeType::AbstractProduct,
    ensures
        spec_next_type(parent, name, has_branch) == if has_branch {
            NodeType::ConcreteProduct
        } else {
            NodeType::AbstractProduct
        },
        ConcreteProduct::spec_compatible(spec_next_type(parent, name, has_branch)) == has_branch,
        AnyGitObject::spec_compatible(spec_next_type(parent, name, has_branch)) == has_branch,
        Product::spec_compatible(spec_next_type(parent, name, has_branch)),
        !Feature::spec_compatible(spec_next_type(parent, name, has_branch)),
        forall|other: Seq<char>| spec_next_type(parent, other, has_branch) == spec_next_type(parent, name, has_branch),
{
}

/// Below a feature root or a feature, a child is a feature: a concrete one
/// (a git object that the feature types accept) exactly when it has a
/// branch, an abstract one otherwise. Its name plays no part.
pub proof fn law_child_of_feature_side(parent: NodeType, name: Seq<char>, has_branch: bool)
    requires
        parent == NodeType::FeatureRoot || parent == NodeType::ConcreteFeature || parent
            == NodeType::AbstractFeature,
    ensures
        spec_next_type(parent, name, has_branch) == if has_branch {
            NodeType::ConcreteFeature
        } else {
            NodeType::AbstractFeature
        },
        ConcreteFeature::spec_compatible(spec_next_type(parent, name, has_branch)) == has_branch,
        AnyGitObject::spec_compatible(spec_next_type(parent, name, has_branch)) == has_branch,
        Feature::spec_compatible(spec_next_type(parent, name, has_branch)),
        !Product::spec_compatible(spec_next_type(parent, name, has_branch)),
        forall|other: Seq<char>| spec_next_type(parent, other, has_branch) == spec_next_type(parent, name, has_branch),
{
}

/// Below the virtual root every child is an area; below an area the child
/// named `feature` is the feature root, the one named `product` the product
/// root, the one named `tmp` holds temporary branches, and any other is of
/// unknown type. Whether it has a branch plays no part.
pub proof fn law_children_of_roots_and_areas(name: Seq<char>, has_branch: bool)
    ensures
        spec_next_type(NodeType::VirtualRoot, name, has_branch) == NodeType::ConcreteArea,
        ConcreteArea::spec_compatible(spec_next_type(NodeType::VirtualRoot, name, has_branch)),
        name == seq!['f', 'e', 'a', 't', 'u', 'r', 'e'] ==> FeatureRoot::spec_compatible(
            spec_next_type(NodeType::ConcreteArea, name, has_branch),
        ),
        name == seq!['p', 'r', 'o', 'd', 'u', 'c', 't'] ==> ProductRoot::spec_compatible(
            spec_next_type(NodeType::ConcreteArea, name, has_branch),
        ),
        name == seq!['t', 'm', 'p'] ==> Temporary::spec_compatible(
            spec_next_type(NodeType::ConcreteArea, name, has_branch),
        ),
        name != seq!['f', 'e', 'a', 't', 'u', 'r', 'e'] && name != seq!['p', 'r', 'o', 'd', 'u', 'c', 't']
            && name != seq!['t', 'm', 'p'] ==> spec_next_type(NodeType::ConcreteArea, name, has_branch)
            == NodeType::Unknown,
        spec_next_type(NodeType::Temporary, name, has_branch) == NodeType::Temporary,
        spec_next_type(NodeType::Unknown, name, has_branch) == NodeType::Unknown,
{
}

/// Each single symbolic type accepts exactly its own node type, the one
/// whose name is its identifier.
pub proof fn law_single_types_accept_their_own(t: NodeType)
    ensures
        ConcreteProduct::spec_compatible(t) <==> t == NodeType::ConcreteProduct,
        ConcreteFeature::spec_compatible(t) <==> t == NodeType::ConcreteFeature,
        AbstractFeature::spec_compatible(t) <==> t == NodeType::AbstractFeature,
        FeatureRoot::spec_compatible(t) <==> t == NodeType::FeatureRoot,
        ProductRoot::spec_compatible(t) <==> t == NodeType::ProductRoot,
        ConcreteArea::spec_compatible(t) <==> t == NodeType::ConcreteArea,
        Temporary::spec_compatible(t) <==> t == NodeType::Temporary,
        VirtualRoot::spec_compatible(t) <==> t == NodeType::VirtualRoot,
        ConcreteProduct::spec_compatible(t) <==> spec_type_name(t) == ConcreteProduct::spec_identifier(),
        ConcreteFeature::spec_compatible(t) <==> spec_type_name(t) == ConcreteFeature::spec_identifier(),
        FeatureRoot::spec_compatible(t) <==> spec_type_name(t) == FeatureRoot::spec_identifier(),
        ProductRoot::spec_compatible(t) <==> spec_type_name(t) == ProductRoot::spec_identifier(),
{
    lemma_type_name_shape(t);
    lemma_type_name_shape(NodeType::ConcreteProduct);
    lemma_type_name_shape(NodeType::ConcreteFeature);
    lemma_type_name_shape(NodeType::FeatureRoot);
    lemma_type_name_shape(NodeType::ProductRoot);
}

/// The abstract product type accepts exactly the concrete products: neither
/// abstract products nor anything else.
pub proof fn law_abstract_product_accepts_concrete_products(t: NodeType)
    ensures
        AbstractProduct::spec_compatible(t) <==> t == NodeType::ConcreteProduct,
        AbstractProduct::spec_compatible(t) ==> ConcreteProduct::spec_compatible(t),
{
}

/// Different node types have different names, so a message that names a
/// type names exactly one.
pub proof fn law_type_names_distinct(a: NodeType, b: NodeType)
    ensures
        a != b ==> spec_type_name(a) != spec_type_name(b),
{
    lemma_type_name_shape(a);
    lemma_type_name_shape(b);
    if a == NodeType::AbstractFeature && b == NodeType::AbstractProduct || a == NodeType::AbstractProduct
        && b == NodeType::AbstractFeature {
        assert(spec_type_name(a)[9] != spec_type_name(b)[9]);
    }
}

/// The length and first letter of each type name, which tell the names of
/// the concrete features and products and of the two roots apart from all
/// others.
proof fn lemma_type_name_shape(t: NodeType)
    ensures
        spec_type_name(t).len() == match t {
            NodeType::VirtualRoot => 12,
            NodeType::ConcreteArea => 4,
            NodeType::FeatureRoot => 12,
            NodeType::ProductRoot => 12,
            NodeType::ConcreteFeature => 7,
            NodeType::AbstractFeature => 16,
            NodeType::ConcreteProduct => 7,
            NodeType::AbstractProduct => 16,
            NodeType::Temporary => 9,
            NodeType::Unknown => 0int,
        },
        t != NodeType::Unknown ==> spec_type_name(t)[0] == match t {
            NodeType::VirtualRoot => 'v',
            NodeType::ConcreteArea => 'a',
            NodeType::FeatureRoot => 'f',
            NodeType::ProductRoot => 'p',
            NodeType::ConcreteFeature => 'f',
            NodeType::AbstractFeature => 'a',
            NodeType::ConcreteProduct => 'p',
            NodeType::AbstractProduct => 'a',
            NodeType::Temporary => 't',
            NodeType::Unknown => ' ',
        },
{
}

/// The general product and feature types are the unions of their concrete
/// and abstract node types; every concrete product or feature, and every
/// area and temporary node, is a git object; every node is accepted as any
/// node.
pub proof fn law_general_types_are_unions(t: NodeType)
    ensures
        Product::spec_compatible(t) <==> (t == NodeType::ConcreteProduct || t == NodeType::AbstractProduct),
        Feature::spec_compatible(t) <==> (t == NodeType::ConcreteFeature || t == NodeType::AbstractFeature),
        ConcreteProduct::spec_compatible(t) ==> Product::spec_compatible(t) && AnyGitObject::spec_compatible(t),
        ConcreteFeature::spec_compatible(t) ==> Feature::spec_compatible(t) && AnyGitObject::spec_compatible(t),
        AbstractFeature::spec_compatible(t) ==> Feature::spec_compatible(t) && !AnyGitObject::spec_compatible(t),
        AnyGitObject::spec_compatible(t) <==> (ConcreteFeature::spec_compatible(t)
            || ConcreteProduct::spec_compatible(t) || ConcreteArea::spec_compatible(t)
            || Temporary::spec_compatible(t)),
        AnyNode::spec_compatible(t),
{
}

} // verus!
