use tangl::model::{
    AnyNode, ByGlobFilteringNodePathTransformer, ByQPathFilteringNodePathTransformer,
    ByTypeFilteringNodePathTransformer, Feature, FilteringMode,
    HasBranchFilteringNodePathTransformer, NodePath, NodePathTransformer, NormalizedPath,
    TreeDataModel,
};

fn prepare_model() -> TreeDataModel {
    let mut model = TreeDataModel::new();
    model.insert_qualified_path(NormalizedPath::from_str("/main/feature/root"), false);
    model.insert_qualified_path(NormalizedPath::from_str("/main/feature/root/foo"), false);
    model
}

fn texts(paths: &Vec<NodePath<AnyNode>>) -> Vec<String> {
    paths
        .iter()
        .map(|p| p.to_normalized_path().to_string())
        .collect()
}

#[test]
fn test_q_path_filtering_node_path_transformer_include() {
    let model = prepare_model();
    let transformer = ByQPathFilteringNodePathTransformer::new(
        vec![NormalizedPath::from_str("/main/feature/root")],
        FilteringMode::INCLUDE,
    );
    let root = model.get_virtual_root();
    let actual = transformer.transform(&model, root.iter_children_req(&model));
    assert_eq!(texts(&actual), vec!["/main/feature/root"]);
}

#[test]
fn test_q_path_filtering_node_path_transformer_exclude() {
    let model = prepare_model();
    let transformer = ByQPathFilteringNodePathTransformer::new(
        vec![NormalizedPath::from_str("/main/feature/root")],
        FilteringMode::EXCLUDE,
    );
    let root = model.get_virtual_root();
    let actual = transformer.transform(&model, root.iter_children_req(&model));
    assert_eq!(
        texts(&actual),
        vec!["/main", "/main/feature", "/main/feature/root/foo"]
    );
}

#[test]
fn has_branch_filter_keeps_nodes_with_branches() {
    let mut model = TreeDataModel::new();
    model.insert_qualified_path(NormalizedPath::from_str("/main/feature/root"), true);
    model.insert_qualified_path(NormalizedPath::from_str("/main/feature/root/foo"), false);
    let root = model.get_virtual_root();
    let with = HasBranchFilteringNodePathTransformer::new(true)
        .transform(&model, root.iter_children_req(&model));
    assert_eq!(texts(&with), vec!["/main/feature/root"]);
    let without = HasBranchFilteringNodePathTransformer::new(false)
        .transform(&model, root.iter_children_req(&model));
    assert_eq!(
        texts(&without),
        vec!["/main", "/main/feature", "/main/feature/root/foo"]
    );
}

#[test]
fn glob_filter_includes_and_excludes() {
    let model = prepare_model();
    let root = model.get_virtual_root();
    let keep = ByGlobFilteringNodePathTransformer::new(
        &vec![NormalizedPath::from_str("/main/feature/*")],
        FilteringMode::INCLUDE,
    )
    .unwrap();
    let found = keep.transform(&model, root.iter_children_req(&model));
    assert_eq!(
        texts(&found),
        vec!["/main/feature/root", "/main/feature/root/foo"]
    );
    let exclude = ByGlobFilteringNodePathTransformer::new(
        &vec![NormalizedPath::from_str("/main/feature/*")],
        FilteringMode::EXCLUDE,
    )
    .unwrap();
    let rest = exclude.transform(&model, root.iter_children_req(&model));
    assert_eq!(texts(&rest), vec!["/main", "/main/feature"]);
}

#[test]
fn glob_filter_rejects_a_broken_pattern() {
    let result = ByGlobFilteringNodePathTransformer::new(
        &vec![NormalizedPath::from_str("/main/[feature")],
        FilteringMode::INCLUDE,
    );
    match result {
        Ok(_) => panic!("an unclosed class must not build"),
        Err(e) => assert_eq!(e.get_pattern(), "/main/[feature"),
    }
}

#[test]
fn type_filter_keeps_features() {
    let model = prepare_model();
    let root = model.get_virtual_root();
    let filter = ByTypeFilteringNodePathTransformer::<AnyNode, Feature>::new();
    let features = filter.transform(&model, root.iter_children_req(&model));
    let names: Vec<String> = features
        .iter()
        .map(|p| p.to_normalized_path().to_string())
        .collect();
    assert_eq!(names, vec!["/main/feature/root", "/main/feature/root/foo"]);
}
