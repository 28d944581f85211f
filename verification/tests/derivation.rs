use tangl::git::interface::MergeOutcome;
use tangl::spl::derivation::{step_after_merge, RunStep};
use tangl::base::model::path::normalized_path::NormalizedPath;
use tangl::model::commit::Commit;
use tangl::model::CommitHash;
use tangl::spl::derivation::{
    abort_target, initialize_allowed, progress_message, revert_target, DerivationData,
    DerivationManager, DerivationMetadata, DerivationState, MergeResult, NormalizedMergeStatistic,
};
use tangl::spl::error::{
    AbortDerivationError, ContinueDerivationError, InitializeDerivationError, UpdateProductError,
};
use tangl::spl::inspection::{InspectionError, InspectionManager, LastDerivationStep};

fn entry(path: &str, stat: MergeResult) -> NormalizedMergeStatistic {
    NormalizedMergeStatistic::new(NormalizedPath::from_str(path), stat)
}

fn texts(v: &Vec<NormalizedMergeStatistic>) -> Vec<String> {
    v.iter().map(|e| e.get_path().to_string()).collect()
}

fn started() -> DerivationData {
    let initial = DerivationData::new_initial(CommitHash::new("c0".to_string()));
    DerivationData::new_in_progress(
        vec![
            entry("/main/feature/a", MergeResult::Success),
            entry("/main/feature/b", MergeResult::Conflict),
        ],
        CommitHash::new("c1".to_string()),
        &initial,
    )
}

#[test]
fn derivation_initial_is_idle() {
    let data = DerivationData::new_initial(CommitHash::new("c0".to_string()));
    assert_eq!(*data.get_state(), DerivationState::Idle);
    assert_eq!(data.get_id().len(), 36);
    assert!(data.get_missing().is_empty() && data.get_completed().is_empty());
    assert!(data.get_total().is_empty());
}

#[test]
fn derivation_start_lists_missing_and_total() {
    let data = started();
    assert_eq!(*data.get_state(), DerivationState::InProgress);
    assert_eq!(data.get_initial_commit().get_full_hash(), "c1");
    assert_eq!(texts(data.get_missing()), vec!["/main/feature/a", "/main/feature/b"]);
    let total: Vec<String> = data.get_total().iter().map(|p| p.to_string()).collect();
    assert_eq!(total, vec!["/main/feature/a", "/main/feature/b"]);
}

#[test]
fn derivation_in_progress_is_kept() {
    let data = started();
    let again = DerivationData::new_in_progress(vec![], CommitHash::new("c9".to_string()), &data);
    assert_eq!(again.get_id(), data.get_id());
    assert_eq!(again.get_initial_commit().get_full_hash(), "c1");
}

#[test]
fn derivation_mark_moves_feature() {
    let mut data = started();
    data.mark_as_completed(&NormalizedPath::from_str("/main/feature/a"));
    assert_eq!(texts(data.get_missing()), vec!["/main/feature/b"]);
    assert_eq!(texts(data.get_completed()), vec!["/main/feature/a"]);
    assert_eq!(*data.get_state(), DerivationState::InProgress);
    data.mark_as_completed(&NormalizedPath::from_str("/main/feature/b"));
    assert!(data.get_missing().is_empty());
    assert_eq!(*data.get_state(), DerivationState::Idle);
}

#[test]
fn derivation_mark_twice_is_once() {
    let mut once = started();
    once.mark_as_completed(&NormalizedPath::from_str("/main/feature/a"));
    let mut twice = started();
    twice.mark_as_completed(&NormalizedPath::from_str("/main/feature/a"));
    twice.mark_as_completed(&NormalizedPath::from_str("/main/feature/a"));
    assert_eq!(texts(once.get_completed()), texts(twice.get_completed()));
    assert_eq!(texts(once.get_missing()), texts(twice.get_missing()));
}

#[test]
fn derivation_new_total_updates_versions() {
    let mut first = started();
    first.mark_as_completed(&NormalizedPath::from_str("/main/feature/a"));
    first.mark_as_completed(&NormalizedPath::from_str("/main/feature/b"));
    let next = DerivationData::new_in_progress(
        vec![
            entry("/main/feature/a", MergeResult::UpToDate),
            entry("/main/feature/c", MergeResult::Success),
        ],
        CommitHash::new("c2".to_string()),
        &first,
    );
    let total: Vec<String> = next.get_total().iter().map(|p| p.to_string()).collect();
    assert_eq!(total, vec!["/main/feature/a", "/main/feature/b", "/main/feature/c"]);
    assert_ne!(next.get_id(), first.get_id());
}

#[test]
fn derivation_state_names() {
    assert_eq!(DerivationState::InProgress.to_string(), "in_progress");
    assert_eq!(DerivationState::Idle.to_string(), "none");
    assert_eq!(progress_message(&DerivationState::InProgress), "Derivation progress");
    assert_eq!(progress_message(&DerivationState::Idle), "Derivation finished");
}

#[test]
fn derivation_guards() {
    assert!(initialize_allowed(&DerivationState::Idle).is_ok());
    match initialize_allowed(&DerivationState::InProgress) {
        Err(e) => assert_eq!(e.to_string(), "fatal: a derivation is currently in progress"),
        Ok(_) => panic!("a derivation is in progress"),
    }
    let data = started();
    assert_eq!(abort_target(&data).unwrap().get_full_hash(), "c1");
    let idle = DerivationData::new_initial(CommitHash::new("c0".to_string()));
    match abort_target(&idle) {
        Err(AbortDerivationError::NoDerivationInProgress) => {}
        _ => panic!("nothing to abort"),
    }
    let meta = DerivationMetadata::new(CommitHash::new("p".to_string()), Some(data));
    assert_eq!(revert_target(&meta, &DerivationState::InProgress).unwrap().get_full_hash(), "p");
    assert!(revert_target(&meta, &DerivationState::Idle).is_err());
}

fn manager() -> DerivationManager {
    let idle = DerivationData::new_initial(CommitHash::new("c0".to_string()));
    let meta = DerivationMetadata::new(CommitHash::new("c0".to_string()), Some(idle));
    DerivationManager::new(NormalizedPath::from_str("/main/product/p"), meta)
}

#[test]
fn manager_initialize_and_continue() {
    let mut m = manager();
    let chain = vec![
        entry("/main/feature/a", MergeResult::Success),
        entry("/main/feature/b", MergeResult::Conflict),
    ];
    let started = m.initialize_derivation(chain, CommitHash::new("c1".to_string())).unwrap();
    assert!(started.is_some());
    assert_eq!(m.get_current_state().get_previous().get_full_hash(), "c1");
    let pending = m.get_pending_chain(true).unwrap();
    assert!(matches!(pending[0].get_stat(), MergeResult::Merging));
    assert_eq!(texts(&pending), vec!["/main/feature/a", "/main/feature/b"]);
    match m.initialize_derivation(vec![], CommitHash::new("c2".to_string())) {
        Err(InitializeDerivationError::DerivationInProgress) => {}
        _ => panic!("already in progress"),
    }
    let (meta, message) = m
        .continue_derivation(
            CommitHash::new("c3".to_string()),
            &vec![NormalizedPath::from_str("/main/feature/a")],
        )
        .unwrap();
    assert_eq!(message, "Derivation progress");
    assert_eq!(meta.get_previous().get_full_hash(), "c3");
    let (_, done) = m
        .continue_derivation(
            CommitHash::new("c4".to_string()),
            &vec![NormalizedPath::from_str("/main/feature/b")],
        )
        .unwrap();
    assert_eq!(done, "Derivation finished");
    assert!(m.get_pending_chain(false).is_none());
    match m.continue_derivation(CommitHash::new("c5".to_string()), &vec![]) {
        Err(ContinueDerivationError::NoDerivationInProgress) => {}
        _ => panic!("nothing to continue"),
    }
    let update = m.update_product().unwrap();
    let paths: Vec<String> = update.iter().map(|p| p.to_string()).collect();
    assert_eq!(paths, vec!["/main/feature/a", "/main/feature/b"]);
}

#[test]
fn manager_up_to_date_starts_nothing() {
    let mut m = manager();
    let chain = vec![entry("/main/feature/a", MergeResult::UpToDate)];
    assert!(m.initialize_derivation(chain, CommitHash::new("c1".to_string())).unwrap().is_none());
    assert_eq!(*m.get_current_state().get_data().unwrap().get_state(), DerivationState::Idle);
    assert!(m.abort_derivation().is_err());
}

#[test]
fn manager_optimize_only_when_changed() {
    let mut m = manager();
    let chain = vec![
        entry("/main/feature/a", MergeResult::Success),
        entry("/main/feature/b", MergeResult::Success),
    ];
    m.initialize_derivation(chain, CommitHash::new("c1".to_string())).unwrap();
    let same = m.get_pending_chain(false);
    let order = same.clone().unwrap();
    assert!(m.optimize_merge_order(&same, &order, CommitHash::new("c2".to_string())).is_none());
    let reversed = vec![order[1].clone(), order[0].clone()];
    let changed = m.optimize_merge_order(&same, &reversed, CommitHash::new("c3".to_string()));
    assert!(changed.is_some());
    assert_eq!(
        texts(m.get_current_state().get_data().unwrap().get_missing()),
        vec!["/main/feature/b", "/main/feature/a"]
    );
    match m.update_product() {
        Err(UpdateProductError::DerivationInProgress) => {}
        _ => panic!("update during derivation"),
    }
    assert_eq!(m.abort_derivation().unwrap().get_full_hash(), "c1");
    assert_eq!(m.revert_derivation().unwrap().get_full_hash(), "c3");
}

#[test]
fn inspection_steps() {
    let inspector = InspectionManager::new();
    let commit = Commit::new("h1".to_string(), "msg".to_string());
    assert!(matches!(
        inspector.get_last_derivation_commit(commit, vec![]),
        Ok(LastDerivationStep::NotDerived)
    ));
    let pointer = DerivationMetadata::new(CommitHash::new("h0".to_string()), None);
    match inspector.get_last_derivation_commit(Commit::new("h1".to_string(), "m".to_string()), vec![pointer]) {
        Ok(LastDerivationStep::FollowPointer(h)) => assert_eq!(h.get_full_hash(), "h0"),
        _ => panic!("a pointer is followed"),
    }
    let data = DerivationMetadata::new(CommitHash::new("h0".to_string()), Some(started()));
    match inspector.get_last_derivation_commit(Commit::new("h1".to_string(), "m".to_string()), vec![data]) {
        Ok(LastDerivationStep::Found(c)) => assert_eq!(c.get_commit().get_hash(), "h1"),
        _ => panic!("the data is found"),
    }
    let two = vec![
        DerivationMetadata::new(CommitHash::new("a".to_string()), None),
        DerivationMetadata::new(CommitHash::new("b".to_string()), None),
    ];
    match inspector.get_last_derivation_commit(Commit::new("h1".to_string(), "m".to_string()), two) {
        Err(e) => assert_eq!(e.to_string(), "fatal: commit h1 contains multiple derivation metadata"),
        _ => panic!("two metadata are an error"),
    }
    let missing = inspector.missing_pointer_target(
        &Commit::new("h1".to_string(), "m".to_string()),
        &CommitHash::new("h0".to_string()),
    );
    assert_eq!(
        missing.to_string(),
        "fatal: derivation metadata of commit h1 points to commit h0 which does not exist"
    );
    assert!(matches!(missing, InspectionError::MissingPointerTarget(_, _)));
}

#[test]
fn inspection_state_and_products() {
    let inspector = InspectionManager::new();
    let fresh = inspector.get_last_derivation_state(None, CommitHash::new("c0".to_string()));
    assert_eq!(*fresh.get_state(), DerivationState::Idle);
    assert_eq!(fresh.get_initial_commit().get_full_hash(), "c0");
    let products = vec![
        (NormalizedPath::from_str("/main/product/p1"), started()),
        (NormalizedPath::from_str("/main/product/p2"), fresh),
    ];
    let found = inspector
        .find_products_containing_feature(&NormalizedPath::from_str("/main/feature/a"), &products);
    let names: Vec<String> = found.iter().map(|p| p.to_string()).collect();
    assert_eq!(names, vec!["/main/product/p1"]);
}

#[test]
fn derivation_step_after_merge() {
    assert_eq!(step_after_merge(MergeOutcome::Conflict), RunStep::AbortAndStop);
    assert_eq!(step_after_merge(MergeOutcome::Success), RunStep::MarkAndContinue);
    assert_eq!(step_after_merge(MergeOutcome::UpToDate), RunStep::MarkAndContinue);
    assert_eq!(step_after_merge(MergeOutcome::Failed), RunStep::MarkAndContinue);
}
