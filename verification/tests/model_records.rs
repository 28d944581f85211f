use tangl::model::derivation::{
    DerivationData, DerivationMetadata, DerivationState, FeatureMetadata,
};
use tangl::model::importer::ImportFormat;
use tangl::model::NormalizedPath;

fn features(paths: &[&str]) -> Vec<FeatureMetadata> {
    paths.iter().map(|p| FeatureMetadata::new(p.to_string())).collect()
}

fn names(v: &Vec<FeatureMetadata>) -> Vec<String> {
    FeatureMetadata::qualified_paths(v).iter().map(|p| p.to_string()).collect()
}

#[test]
fn record_state_from_string() {
    assert_eq!(DerivationState::from_string("in_progress"), DerivationState::InProgress);
    assert_eq!(DerivationState::from_string("none"), DerivationState::Idle);
    assert_eq!(DerivationState::from_string("anything"), DerivationState::Idle);
    assert_eq!(DerivationState::InProgress.to_string(), "in_progress");
    assert_eq!(DerivationState::Idle.to_string(), "none");
}

#[test]
fn record_new_without_previous() {
    let data = DerivationData::new(features(&["/main/feature/a"]), "c0".to_string(), None);
    assert_eq!(data.get_state(), DerivationState::InProgress);
    assert_eq!(data.get_id().len(), 36);
    assert_eq!(data.get_initial_commit(), "c0");
    assert_eq!(names(data.get_missing()), vec!["/main/feature/a"]);
    assert_eq!(names(data.get_total()), vec!["/main/feature/a"]);
    assert!(data.get_completed().is_empty());
}

#[test]
fn record_new_after_finished_keeps_total() {
    let mut prev = DerivationData::new(features(&["/main/feature/a"]), "c0".to_string(), None);
    prev.as_finished();
    let next = DerivationData::new(features(&["/main/feature/b"]), "c1".to_string(), Some(&prev));
    assert_eq!(next.get_state(), DerivationState::InProgress);
    assert_eq!(names(next.get_missing()), vec!["/main/feature/b"]);
    assert_eq!(names(next.get_total()), vec!["/main/feature/a"]);
    prev.as_in_progress();
    let kept = DerivationData::new(features(&["/main/feature/b"]), "c1".to_string(), Some(&prev));
    assert_eq!(kept.get_id(), prev.get_id());
}

#[test]
fn record_mark_and_reorder() {
    let mut data = DerivationData::new(
        features(&["/main/feature/a", "/main/feature/b", "/main/feature/c"]),
        "c0".to_string(),
        None,
    );
    data.mark_as_completed(&vec![NormalizedPath::from_str("/main/feature/b")]);
    assert_eq!(names(data.get_completed()), vec!["/main/feature/b"]);
    assert_eq!(names(data.get_missing()), vec!["/main/feature/a", "/main/feature/c"]);
    data.mark_as_completed(&vec![NormalizedPath::from_str("/main/feature/x")]);
    assert_eq!(names(data.get_completed()), vec!["/main/feature/b"]);
    data.reorder_missing(&vec![
        NormalizedPath::from_str("/main/feature/c"),
        NormalizedPath::from_str("/main/feature/a"),
    ]);
    assert_eq!(names(data.get_missing()), vec!["/main/feature/c", "/main/feature/a"]);
}

#[test]
fn record_metadata_pointer_or_data() {
    let pointer = DerivationMetadata::new(Some("abc".to_string()), None);
    assert_eq!(pointer.get_pointer().as_deref(), Some("abc"));
    assert!(pointer.get_data().is_none());
    let data = DerivationData::new(features(&["/main/feature/a"]), "c0".to_string(), None);
    let with_data = DerivationMetadata::new(None, Some(data));
    assert!(with_data.get_pointer().is_none());
    assert!(with_data.get_data().is_some());
}

#[test]
fn record_feature_paths() {
    let paths = vec![NormalizedPath::from_str("/main/feature/a"), NormalizedPath::from_str("b/c")];
    let f = FeatureMetadata::from_qualified_paths(&paths);
    assert_eq!(names(&f), vec!["/main/feature/a", "b/c"]);
    assert_eq!(f[1].get_qualified_path().to_string(), "b/c");
}

#[test]
fn import_format_names() {
    assert_eq!(ImportFormat::try_from_name("native"), Some(ImportFormat::Native));
    assert_eq!(ImportFormat::try_from_name("Waffle"), Some(ImportFormat::Waffle));
    assert_eq!(ImportFormat::try_from_name("uvl"), Some(ImportFormat::UVL));
    assert_eq!(ImportFormat::try_from_name("xml"), None);
    assert_eq!(ImportFormat::from_name("NATIVE"), ImportFormat::Native);
}

