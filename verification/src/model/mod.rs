pub mod commit;
pub mod derivation;
pub mod error;
pub mod importer;
pub mod node;
pub mod node_path;
pub mod node_type;
pub mod qualified_path;
pub mod transformer;
pub mod tree;

pub use node::{BranchData, CommitTag, Node, PayloadType};
pub use node_type::{
    AbstractFeature, AbstractProduct, AnyGitObject, AnyNode, ConcreteArea, ConcreteFeature,
    ConcreteProduct, DisplayStyle, Feature, FeatureRoot, HasFeatureChildren, HasProductChildren,
    IsGitObject, IsOnOrUnderArea, NodeType, Product, ProductRoot, SymbolicNodeType, Temporary,
    VirtualRoot, FEATURE_ROOT, PRODUCT_ROOT, TEMPORARY,
};
pub use qualified_path::{
    CommitHash, NormalizedPath, ToNormalizedPath, ToNormalizedPaths, VersionPointer,
};
pub use error::{ModelError, PathNotFoundError, WrongNodeTypeError};
pub use node_path::NodePath;
pub use transformer::{
    ByGlobFilteringNodePathTransformer, ByQPathFilteringNodePathTransformer,
    ByTypeFilteringNodePathTransformer, FilteringMode, GlobPatternError, GlobToTypeNodePathTransformer,
    HasBranchFilteringNodePathTransformer, NodePathTransformer,
};
pub use tree::TreeDataModel;
