use tangl::cli::commands::commit::CommitCommand;
use tangl::git::interface::{GitInterface, GitPath};
use tangl::model::node_path::keep_typed;
use tangl::model::{AnyNode, ConcreteFeature, Feature, NodePath, NormalizedPath, TreeDataModel};

const HASH: &str = "0123456789abcdef0123456789abcdef01234567";

fn populated() -> GitInterface {
    let mut interface = GitInterface::new(GitPath::CustomDirectory("/tmp/repo".to_string()));
    let listing = format!(
        "_main/_feature/_root/bar {HASH}\n_main/_feature/_root/baz {HASH}\n_main/_feature/_root/foo {HASH}\n_main/_feature/root {HASH}\nmain {HASH}\n"
    );
    interface.update_complete_model(&listing, "");
    interface
}

fn texts<T: tangl::model::SymbolicNodeType>(paths: &Vec<NodePath<T>>) -> Vec<String> {
    paths.iter().map(|p| p.to_normalized_path().to_string()).collect()
}

fn features_of(model: &TreeDataModel) -> Vec<NodePath<Feature>> {
    let area = model.get_area(&NormalizedPath::from_str("main")).unwrap();
    let root = area.move_to_feature_root(model).unwrap();
    root.iter_features_req(model)
}

#[test]
fn node_paths_features_below_root() {
    let interface = populated();
    let model = interface.get_model();
    assert_eq!(
        texts(&features_of(model)),
        vec![
            "/main/feature/root",
            "/main/feature/root/bar",
            "/main/feature/root/baz",
            "/main/feature/root/foo"
        ]
    );
}

#[test]
fn node_paths_children_of_feature() {
    let interface = populated();
    let model = interface.get_model();
    let area = model.get_area(&NormalizedPath::from_str("main")).unwrap();
    let root = area.move_to_feature_root(model).unwrap();
    let top: Vec<NodePath<Feature>> = root.iter_features(model);
    assert_eq!(texts(&top), vec!["/main/feature/root"]);
}

#[test]
fn node_paths_keep_typed() {
    let interface = populated();
    let model = interface.get_model();
    let all: Vec<NodePath<AnyNode>> = model.get_virtual_root().iter_children_req(model);
    let features: Vec<NodePath<ConcreteFeature>> = keep_typed(&all, model);
    assert_eq!(
        texts(&features),
        vec![
            "/main/feature/root",
            "/main/feature/root/bar",
            "/main/feature/root/baz",
            "/main/feature/root/foo"
        ]
    );
}

#[test]
fn node_paths_other_features() {
    let interface = populated();
    let model = interface.get_model();
    let features = features_of(model);
    let others = CommitCommand::other_features(
        model,
        &features,
        &NormalizedPath::from_str("/main/feature/root/foo"),
    );
    assert_eq!(
        texts(&others),
        vec!["/main/feature/root", "/main/feature/root/bar", "/main/feature/root/baz"]
    );
}

#[test]
fn node_paths_move_to_last_valid() {
    let interface = populated();
    let model = interface.get_model();
    let root = model.get_virtual_root();
    let reached = root.move_to_last_valid(model, &NormalizedPath::from_str("main/feature/missing/root"));
    assert_eq!(reached.to_normalized_path().to_string(), "/main/feature");
    let root = model.get_virtual_root();
    let full = root.move_to_last_valid(model, &NormalizedPath::from_str("main/feature/root/foo"));
    assert_eq!(full.to_normalized_path().to_string(), "/main/feature/root/foo");
}

#[test]
fn node_paths_move_to_roots() {
    let interface = populated();
    let model = interface.get_model();
    let area = model.get_area(&NormalizedPath::from_str("main")).unwrap();
    assert!(area.move_to_product_root(model).is_none());
    let area = model.get_area(&NormalizedPath::from_str("main")).unwrap();
    let root = area.move_to_feature_root(model).unwrap();
    let foo = root.move_to_feature(model, &NormalizedPath::from_str("root/foo")).unwrap();
    assert_eq!(foo.to_normalized_path().to_string(), "/main/feature/root/foo");
}

#[test]
fn node_paths_assert_path_messages() {
    let interface = populated();
    let model = interface.get_model();
    let missing = model.assert_path::<ConcreteFeature>(&NormalizedPath::from_str("/main/nothing"));
    match missing {
        Err(tangl::model::ModelError::PathNotFound(e)) => assert_eq!(e.message(), "Path /main/nothing does not exist"),
        _ => panic!("expected a missing path"),
    }
    let wrong = model.assert_path::<ConcreteFeature>(&NormalizedPath::from_str("/main"));
    match wrong {
        Err(tangl::model::ModelError::WrongNodeType(e)) => assert_eq!(
            e.message(),
            "NodeTypeError for /main: expected to be of type 'feature', but is of type 'area'"
        ),
        _ => panic!("expected a wrong type"),
    }
}

#[test]
fn node_paths_tree_drawing_decisions() {
    let interface = populated();
    let model = interface.get_model();
    let root = model.find(&vec!["main".to_string(), "feature".to_string(), "root".to_string()]).unwrap();
    assert!(root.shows_type_in_tree());
    let children = root.get_children();
    let names: Vec<String> = tangl::model::node_path::sorted_child_order(children)
        .iter()
        .map(|i| children[*i].get_name().clone())
        .collect();
    assert_eq!(names, vec!["bar", "baz", "foo"]);
}

#[test]
fn node_paths_listing_is_preorder_by_name() {
    let mut model = TreeDataModel::new();
    model.insert_qualified_path(NormalizedPath::from_str("/main/feature/root/zeta"), false);
    model.insert_qualified_path(NormalizedPath::from_str("/main/feature/root/alpha/inner"), false);
    model.insert_qualified_path(NormalizedPath::from_str("/main/feature/root/alpha"), false);
    model.insert_qualified_path(NormalizedPath::from_str("/main/feature/root/mid"), false);
    let all = model.get_virtual_root().iter_children_req(&model);
    assert_eq!(
        texts(&all),
        vec![
            "/main",
            "/main/feature",
            "/main/feature/root",
            "/main/feature/root/alpha",
            "/main/feature/root/alpha/inner",
            "/main/feature/root/mid",
            "/main/feature/root/zeta"
        ]
    );
}

#[test]
fn node_paths_branch_insertion_types() {
    let mut model = TreeDataModel::new();
    let hash = "0123456789abcdef";
    model.insert_git_branch("main".to_string(), hash.to_string());
    let made = model.insert_git_branch("_main/_feature/foo".to_string(), hash.to_string());
    assert_eq!(made, tangl::model::NodeType::ConcreteFeature);
    assert!(model
        .get_node_path::<tangl::model::FeatureRoot>(&NormalizedPath::from_str("/main/feature"))
        .is_some());
    let foo = model
        .get_node_path::<ConcreteFeature>(&NormalizedPath::from_str("/main/feature/foo"))
        .unwrap();
    assert_eq!(foo.get_ref_name(&model), "_main/_feature/foo");
}

#[test]
fn node_paths_nodes_made_on_the_way_are_abstract() {
    let mut model = TreeDataModel::new();
    let hash = "0123456789abcdef";
    model.insert_git_branch("main".to_string(), hash.to_string());
    model.insert_git_branch("_main/_feature/_a/b".to_string(), hash.to_string());
    let a = NormalizedPath::from_str("/main/feature/a");
    assert!(model.get_node_path::<ConcreteFeature>(&a).is_none());
    assert!(model.get_node_path::<tangl::model::AbstractFeature>(&a).is_some());
    assert!(model
        .get_node_path::<ConcreteFeature>(&NormalizedPath::from_str("/main/feature/a/b"))
        .is_some());
}
