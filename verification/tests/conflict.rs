use tangl::git::conflict::{
    conflicting_with_base, merge_chain, paths_without, plan_by_order, plan_k_permutations,
    plan_n_against_permutations, plan_permutations_against_base, rebase_on_second, statistic_of,
    to_normalized_paths, ChainCheck, Conflict2DMatrix, MergeChainStatistic, MergeChainStatistics,
    MergeConflict, MergeKind, MergePending, MergeStatistic, MergeStatisticWeight, MergeStatistics,
    MergeSuccess,
};
use tangl::git::interface::MergeOutcome;
use tangl::model::NormalizedPath;

fn path(text: &str) -> NormalizedPath {
    NormalizedPath::from_str(text)
}

fn kinds(chain: &MergeChainStatistic) -> Vec<MergeKind> {
    chain.get_chain().iter().map(|s| s.kind()).collect()
}

fn texts(paths: &Vec<NormalizedPath>) -> Vec<String> {
    paths.iter().map(|p| p.to_string()).collect()
}

fn sorted(mut plans: Vec<Vec<usize>>) -> Vec<Vec<usize>> {
    plans.sort();
    plans
}

#[test]
fn conflict_statistic_texts() {
    assert_eq!(MergeStatistic::Base(path("/main/feature/a")).to_string(), "/main/feature/a (Base)");
    assert_eq!(
        MergeStatistic::Success(MergeSuccess::new(path("/main/feature/a"))).to_string(),
        "/main/feature/a (Head) (Ok)"
    );
    assert_eq!(
        MergeStatistic::UpToDate(path("/main/feature/a")).to_string(),
        "/main/feature/a (Head) (Up to date)"
    );
    assert_eq!(
        MergeStatistic::Conflict(MergeConflict::new(path("/main/feature/a"))).to_string(),
        "/main/feature/a (Head) (Conflict)"
    );
    assert_eq!(
        MergeStatistic::Merging(MergePending::new(path("/main/feature/a"))).to_string(),
        "/main/feature/a (Merging)"
    );
    assert_eq!(MergeStatistic::Aborted(path("/main/feature/a")).to_string(), "/main/feature/a (Aborted)");
}

#[test]
fn conflict_statistic_same_as() {
    let a = MergeStatistic::UpToDate(path("/a"));
    assert!(a.same_as(&MergeStatistic::UpToDate(path("/a"))));
    assert!(!a.same_as(&MergeStatistic::Aborted(path("/a"))));
    assert!(!a.same_as(&MergeStatistic::UpToDate(path("/b"))));
}

#[test]
fn conflict_chain_push_counts() {
    let mut chain = MergeChainStatistic::new();
    assert!(chain.is_empty());
    chain.push(MergeStatistic::Base(path("/b")));
    chain.push(MergeStatistic::Success(MergeSuccess::new(path("/f1"))));
    chain.push(MergeStatistic::UpToDate(path("/f2")));
    chain.push(MergeStatistic::Conflict(MergeConflict::new(path("/f3"))));
    assert_eq!(chain.len(), 4);
    assert_eq!(chain.get_n_merged(), 1);
    assert_eq!(chain.get_n_up_to_date(), 1);
    assert_eq!(chain.get_n_conflict(), 1);
    assert!(chain.contains_conflicts());
    assert!(!chain.all_up_to_date());
    assert_eq!(
        chain.display_as_path(),
        "/b (Base) <- /f1 (Head) (Ok) <- /f2 (Head) (Up to date) <- /f3 (Head) (Conflict)"
    );
    assert_eq!(
        chain.display_as_list(),
        vec![
            "/b (Base)".to_string(),
            " <- /f1 (Head) (Ok)".to_string(),
            " <- /f2 (Head) (Up to date)".to_string(),
            " <- /f3 (Head) (Conflict)".to_string()
        ]
    );
    let rest: Vec<MergeKind> = chain.iter_except_base().iter().map(|s| s.kind()).collect();
    assert_eq!(rest, vec![MergeKind::Success, MergeKind::UpToDate, MergeKind::Conflict]);
    assert!(chain.get(4).is_none());
    assert_eq!(chain.get(2).unwrap().get_path().to_string(), "/f2");
}

#[test]
fn conflict_chain_all_up_to_date() {
    let mut chain = MergeChainStatistic::new();
    chain.push(MergeStatistic::Base(path("/b")));
    assert!(chain.all_up_to_date());
    chain.push(MergeStatistic::UpToDate(path("/f1")));
    chain.push(MergeStatistic::UpToDate(path("/f2")));
    assert!(chain.all_up_to_date());
}

#[test]
fn conflict_chain_insert_then_remove() {
    let mut chain = MergeChainStatistic::new();
    chain.push(MergeStatistic::Base(path("/b")));
    chain.push(MergeStatistic::UpToDate(path("/f1")));
    chain.insert(1, MergeStatistic::Conflict(MergeConflict::new(path("/f2"))));
    assert_eq!(kinds(&chain), vec![MergeKind::Base, MergeKind::Conflict, MergeKind::UpToDate]);
    assert_eq!(chain.get_n_conflict(), 1);
    let removed = chain.remove(1);
    assert_eq!(removed.kind(), MergeKind::Conflict);
    assert_eq!(removed.get_path().to_string(), "/f2");
    assert_eq!(kinds(&chain), vec![MergeKind::Base, MergeKind::UpToDate]);
    assert_eq!(chain.get_n_conflict(), 0);
    assert_eq!(chain.get_n_up_to_date(), 1);
}

#[test]
fn conflict_chain_replace_and_fill() {
    let mut chain = MergeChainStatistic::new();
    chain.push(MergeStatistic::Base(path("/b")));
    chain.push(MergeStatistic::Conflict(MergeConflict::new(path("/f1"))));
    chain.replace(1, MergeStatistic::Success(MergeSuccess::new(path("/f1"))));
    assert_eq!(chain.get_n_conflict(), 0);
    assert_eq!(chain.get_n_merged(), 1);
    chain.fill(vec![MergeStatistic::UpToDate(path("/f2"))]);
    assert_eq!(kinds(&chain), vec![MergeKind::Base, MergeKind::Success, MergeKind::UpToDate]);
    // filled outcomes are not counted
    assert_eq!(chain.get_n_up_to_date(), 0);
}

#[test]
fn conflict_chains_totals() {
    let ok = merge_chain(path("/b"), MergeOutcome::Success, path("/f1"));
    let bad = merge_chain(path("/b"), MergeOutcome::Conflict, path("/f2"));
    let same = merge_chain(path("/b"), MergeOutcome::UpToDate, path("/f3"));
    let all = MergeChainStatistics::from_iter(vec![ok, bad, same]);
    assert_eq!(all.iter_all().len(), 3);
    assert_eq!(all.n_ok(), 1);
    assert_eq!(all.n_conflicts(), 1);
    let conflicts = all.iter_conflicts();
    assert_eq!(conflicts.len(), 1);
    assert_eq!(conflicts[0].display_as_path(), "/b (Base) <- /f2 (Head) (Conflict)");
    let mut more = MergeChainStatistics::new();
    more.push(merge_chain(path("/b"), MergeOutcome::Success, path("/f4")));
    assert_eq!(more.n_ok(), 1);
    assert_eq!(more.n_conflicts(), 0);
}

#[test]
fn conflict_weights_and_lowest() {
    let weights = MergeStatisticWeight::Simple;
    assert_eq!(weights.get_weight(&MergeStatistic::UpToDate(path("/a"))), 1);
    assert_eq!(weights.get_weight(&MergeStatistic::Success(MergeSuccess::new(path("/a")))), 0);
    assert_eq!(weights.get_weight(&MergeStatistic::Conflict(MergeConflict::new(path("/a")))), -1);
    assert_eq!(weights.get_weight(&MergeStatistic::Aborted(path("/a"))), -10);
    assert_eq!(weights.get_weight(&MergeStatistic::Base(path("/a"))), 0);
    let mut votes = MergeStatistics::new(MergeStatisticWeight::Simple);
    votes.push(MergeStatistic::UpToDate(path("/a")));
    votes.push(MergeStatistic::Conflict(MergeConflict::new(path("/b"))));
    votes.push(MergeStatistic::Conflict(MergeConflict::new(path("/c"))));
    votes.push(MergeStatistic::Success(MergeSuccess::new(path("/d"))));
    assert_eq!(votes.len(), 4);
    assert_eq!(votes.accumulate_weights(), -1);
    // the first of least weight
    assert_eq!(votes.get_lowest().get_path().to_string(), "/b");
    let mut other = MergeStatistics::new(MergeStatisticWeight::Simple);
    other.push(MergeStatistic::UpToDate(path("/a")));
    assert!(!votes.same_as(&other));
    assert!(other.same_as(&other.clone()));
}

fn matrix() -> Conflict2DMatrix {
    let chains = MergeChainStatistics::from_iter(vec![
        merge_chain(path("/b"), MergeOutcome::UpToDate, path("/f1")),
        merge_chain(path("/b"), MergeOutcome::Conflict, path("/f2")),
        merge_chain(path("/f1"), MergeOutcome::Success, path("/f2")),
        merge_chain(path("/f2"), MergeOutcome::Success, path("/f1")),
    ]);
    Conflict2DMatrix::new(&chains)
}

#[test]
fn conflict_matrix_predict_conflicts() {
    let predicted = matrix().predict_conflicts(&vec![path("/b"), path("/f2"), path("/f1")]);
    assert_eq!(kinds(&predicted), vec![MergeKind::Base, MergeKind::Conflict, MergeKind::Success]);
    assert_eq!(predicted.get_n_conflict(), 1);
    assert_eq!(predicted.get_n_merged(), 1);
    assert_eq!(
        predicted.display_as_path(),
        "/b (Base) <- /f2 (Head) (Conflict) <- /f1 (Head) (Ok)"
    );
}

#[test]
fn conflict_matrix_estimate_best_path() {
    let best = matrix().estimate_best_path(&path("/b"));
    assert_eq!(
        best.display_as_path(),
        "/b (Base) <- /f1 (Head) (Up to date) <- /f2 (Head) (Conflict)"
    );
    assert_eq!(best.get_n_up_to_date(), 1);
    assert_eq!(best.get_n_conflict(), 1);
}

#[test]
fn conflict_plan_k_permutations() {
    assert_eq!(
        sorted(plan_k_permutations(3, 2)),
        vec![vec![0, 1], vec![0, 2], vec![1, 0], vec![1, 2], vec![2, 0], vec![2, 1]]
    );
    assert!(plan_k_permutations(2, 3).is_empty());
}

#[test]
fn conflict_plan_permutations_against_base() {
    assert_eq!(sorted(plan_permutations_against_base(2, 2)), vec![vec![0, 1, 2], vec![0, 2, 1]]);
    assert_eq!(sorted(plan_permutations_against_base(3, 1)), vec![vec![0, 1], vec![0, 2], vec![0, 3]]);
}

#[test]
fn conflict_plan_n_against_permutations() {
    assert_eq!(
        sorted(plan_n_against_permutations(1, 2, 1)),
        vec![vec![0, 1], vec![0, 2], vec![1, 0], vec![2, 0]]
    );
    assert_eq!(
        sorted(plan_n_against_permutations(2, 1, 1)),
        vec![vec![0, 2], vec![1, 2], vec![2, 0], vec![2, 1]]
    );
    assert_eq!(plan_n_against_permutations(1, 3, 2).len(), 3 * 6);
}

#[test]
fn conflict_plan_by_order() {
    assert_eq!(plan_by_order(3), vec![0, 1, 2]);
    assert!(plan_by_order(0).is_empty());
}

#[test]
fn conflict_chain_check_aborts_after_conflict() {
    let mut check = ChainCheck::start(path("/b"));
    assert!(check.needs_merge());
    let first = merge_chain(path("/b"), MergeOutcome::Success, path("/f1"));
    assert!(!check.record_merge(&first));
    let second = merge_chain(path("/b"), MergeOutcome::Conflict, path("/f2"));
    assert!(check.record_merge(&second));
    assert!(!check.needs_merge());
    check.record_aborted(path("/f3"));
    let result = check.finish();
    assert_eq!(
        kinds(&result),
        vec![MergeKind::Base, MergeKind::Success, MergeKind::Conflict, MergeKind::Aborted]
    );
    assert_eq!(result.get_n_conflict(), 1);
    assert_eq!(result.get_n_merged(), 1);
}

#[test]
fn conflict_statistic_of_outcomes() {
    assert_eq!(statistic_of(MergeOutcome::Success, path("/a")).kind(), MergeKind::Success);
    assert_eq!(statistic_of(MergeOutcome::UpToDate, path("/a")).kind(), MergeKind::UpToDate);
    assert_eq!(statistic_of(MergeOutcome::Conflict, path("/a")).kind(), MergeKind::Conflict);
    assert_eq!(statistic_of(MergeOutcome::Failed, path("/a")).kind(), MergeKind::Aborted);
    let chain = merge_chain(path("/b"), MergeOutcome::Failed, path("/a"));
    assert_eq!(kinds(&chain), vec![MergeKind::Base, MergeKind::Aborted]);
    assert_eq!(chain.get_n_conflict(), 0);
}

#[test]
fn conflict_conflicting_with_base() {
    let results = vec![
        merge_chain(path("/b"), MergeOutcome::Conflict, path("/f1")),
        merge_chain(path("/b"), MergeOutcome::Success, path("/f2")),
        merge_chain(path("/b"), MergeOutcome::Conflict, path("/f3")),
    ];
    assert_eq!(texts(&conflicting_with_base(&results)), vec!["/f1", "/f3"]);
}

#[test]
fn conflict_paths_without() {
    let paths = vec![path("/f1"), path("/f2"), path("/f3")];
    let excluded = vec![path("/f2"), path("/x")];
    assert_eq!(texts(&paths_without(&paths, &excluded)), vec!["/f1", "/f3"]);
    assert_eq!(texts(&paths_without(&paths, &vec![])), vec!["/f1", "/f2", "/f3"]);
}

#[test]
fn conflict_rebase_on_second() {
    let mut chain = merge_chain(path("/b"), MergeOutcome::Success, path("/f1"));
    chain.push(MergeStatistic::Conflict(MergeConflict::new(path("/f2"))));
    let rebased = rebase_on_second(chain);
    assert_eq!(rebased.display_as_path(), "/f1 (Base) <- /f2 (Head) (Conflict)");
    assert_eq!(rebased.get_n_merged(), 0);
    assert_eq!(rebased.get_n_conflict(), 1);
}

#[test]
fn conflict_to_normalized_paths() {
    let stats = vec![
        MergeStatistic::Base(path("/b")),
        MergeStatistic::Aborted(path("/f1")),
    ];
    assert_eq!(texts(&to_normalized_paths(&stats)), vec!["/b", "/f1"]);
}
