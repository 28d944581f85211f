use tangl::cli::commands::check::{CheckCommand, CheckStrategy};
use tangl::cli::commands::checkout::CheckoutCommand;
use tangl::cli::commands::clone::CloneCommand;
use tangl::cli::commands::commit::CommitCommand;
use tangl::cli::commands::derive::{fix_conflicts_hint, initialize_error_hint, DeriveAction, DeriveCommand};
use tangl::cli::commands::feature::FeatureCommand;
use tangl::cli::commands::product::ProductCommand;
use tangl::cli::commands::spread::SpreadCommand;
use tangl::cli::commands::status::StatusCommand;
use tangl::cli::commands::tag::TagCommand;
use tangl::cli::commands::tangl::TangleCommand;
use tangl::cli::commands::tree::LSCommand;
use tangl::cli::commands::untie::UntieCommand;
use tangl::cli::common::format_command_help;
use tangl::cli::def::CommandError;
use tangl::cli::repo::{verbosity, RunStatistics, Verbosity};
use tangl::git::interface::MergeOutcome;
use tangl::model::error::{ModelError, PathNotFoundError};
use tangl::model::{CommitHash, NodeType, NormalizedPath};
use tangl::spl::derivation::{DerivationMetadata, DerivationState};

#[test]
fn common_command_help_is_quoted() {
    assert_eq!(format_command_help("tangl untie"), "\"tangl untie\"");
    assert_eq!(CommandError::new("boom").to_string(), "boom");
}

#[test]
fn repo_logs_and_verbosity() {
    let stats = RunStatistics::new(vec!["a".to_string(), "b".to_string()]);
    assert!(stats.contains_log("b"));
    assert!(!stats.contains_log("c"));
    assert_eq!(verbosity(false, 3), Verbosity::Info);
    assert_eq!(verbosity(true, 0), Verbosity::Info);
    assert_eq!(verbosity(true, 1), Verbosity::Debug);
    assert_eq!(verbosity(true, 2), Verbosity::Trace);
}

#[test]
fn check_strategy_choice() {
    assert_eq!(
        CheckCommand::choose_strategy(1, Some(2), None, false, false).unwrap_err().to_string(),
        "At least two paths are required to perform merge tests"
    );
    assert_eq!(
        CheckCommand::choose_strategy(3, None, None, false, false).unwrap_err().to_string(),
        "Please choose a test strategy"
    );
    assert_eq!(
        CheckCommand::choose_strategy(3, Some(2), None, false, false).unwrap(),
        CheckStrategy::KPermutations(2)
    );
    assert_eq!(
        CheckCommand::choose_strategy(3, None, Some(1), false, false).unwrap(),
        CheckStrategy::PermutationsAgainstBase(1)
    );
    assert_eq!(CheckCommand::choose_strategy(2, None, None, true, false).unwrap(), CheckStrategy::ByOrder);
    assert_eq!(CheckCommand::choose_strategy(2, None, None, false, true).unwrap(), CheckStrategy::OneToN);
}

#[test]
fn check_defaults() {
    assert_eq!(CheckCommand::default_strategy(NodeType::ConcreteFeature, 0).unwrap(), CheckStrategy::OneToN);
    assert_eq!(
        CheckCommand::default_strategy(NodeType::ConcreteProduct, 2).unwrap(),
        CheckStrategy::PermutationsAgainstBase(1)
    );
    assert_eq!(
        CheckCommand::default_strategy(NodeType::ConcreteProduct, 0).unwrap_err().to_string(),
        "Nothing to check against: product not derived yet"
    );
    assert_eq!(
        CheckCommand::default_strategy(NodeType::ConcreteArea, 0).unwrap_err().to_string(),
        "No default available for current node type\nPlease supply test paths and a strategy"
    );
    assert!(CheckCommand::is_glob_pattern("foo/*"));
    assert!(CheckCommand::is_glob_pattern("[ab]"));
    assert!(!CheckCommand::is_glob_pattern("foo/bar"));
}

#[test]
fn untie_finds_covering_features() {
    let commit_files = vec!["a.txt".to_string(), "b.txt".to_string()];
    let features = vec![
        vec!["a.txt".to_string()],
        vec!["b.txt".to_string(), "a.txt".to_string(), "c.txt".to_string()],
        vec!["a.txt".to_string(), "b.txt".to_string()],
    ];
    assert_eq!(UntieCommand::find_features_that_contain_files(&commit_files, &features), vec![1, 2]);
}

#[test]
fn untie_pointer_checks() {
    assert_eq!(
        UntieCommand::untie_pointer("abcdefgh", None).unwrap_err().to_string(),
        "fatal: commit 'abcdefgh' does not contain derivation metadata pointer"
    );
    let pointer = DerivationMetadata::new(CommitHash::new("p".to_string()), None);
    assert_eq!(UntieCommand::untie_pointer("abcdefgh", Some(&pointer)).unwrap().get_full_hash(), "p");
}

#[test]
fn untie_target_choice() {
    assert_eq!(
        UntieCommand::untie_target(&vec![]).unwrap_err().to_string(),
        "There are no features matching all changed files. Please choose one manually."
    );
    assert_eq!(UntieCommand::untie_target(&vec!["f".to_string()]).unwrap(), 0);
    assert_eq!(
        UntieCommand::untie_target(&vec!["f".to_string(), "g".to_string()]).unwrap_err().to_string(),
        "There are multiple potential untie targets. Please choose one manually.\nThe following features are candidates:\n  f\n  g"
    );
}

#[test]
fn untie_outcomes() {
    assert_eq!(
        UntieCommand::untie_outcome(MergeOutcome::UpToDate, "").unwrap(),
        ("Skipped: feature is up-to-date.".to_string(), true)
    );
    assert_eq!(
        UntieCommand::untie_outcome(MergeOutcome::Conflict, "").unwrap().1,
        false
    );
    assert_eq!(
        UntieCommand::untie_outcome(MergeOutcome::Failed, "boom").unwrap_err().to_string(),
        "Cannot untie: boom"
    );
    assert_eq!(
        UntieCommand::untie_outcome(MergeOutcome::Success, "").unwrap().0,
        "Please review the changes made and commit them afterwards."
    );
}

#[test]
fn derive_hints() {
    assert_eq!(
        fix_conflicts_hint(),
        "\nFix all conflicts, then run \"tangl derive --continue\" to commence the derivation."
    );
    assert_eq!(
        initialize_error_hint(),
        "fatal: a derivation is already in progress\n  (Use \"tangl derive --continue\" to continue the derivation)\n  (Use \"tangl derive --reset\" to reset to the last state)\n  (Use \"tangl derive --abort\" to abort the derivation)"
    );
}

#[test]
fn derive_action_choice() {
    assert_eq!(DeriveCommand::choose_action(true, true, true, true, true), DeriveAction::Abort);
    assert_eq!(DeriveCommand::choose_action(false, true, true, false, false), DeriveAction::Initialize);
    assert_eq!(DeriveCommand::choose_action(false, false, true, true, false), DeriveAction::Continue);
    assert_eq!(DeriveCommand::choose_action(false, false, false, true, true), DeriveAction::Update);
    assert_eq!(DeriveCommand::choose_action(false, false, false, false, true), DeriveAction::FromFile);
}

#[test]
fn derive_messages() {
    assert_eq!(
        DeriveCommand::abort_messages("id1", "c0"),
        vec!["Successfully aborted derivation id1", "Reset to state before derivation (c0)"]
    );
    assert_eq!(
        DeriveCommand::initialize_hint(DerivationState::InProgress, true, "chain", 2),
        vec!["Derivation Preview\n", "Suggesting the following merge order:", "chain", "\nExpecting 2 conflicts"]
    );
    assert_eq!(
        DeriveCommand::initialize_hint(DerivationState::InProgress, false, "chain", 0),
        vec!["Derivation Preview\n", "chain", "\nExpecting no conflicts"]
    );
    assert_eq!(
        DeriveCommand::initialize_hint(DerivationState::Idle, false, "chain", 0),
        vec!["Product already up to date."]
    );
    assert_eq!(DeriveCommand::merged_message(12), "Merged 12 feature(s)");
    assert_eq!(DeriveCommand::remaining_message(3), "\n3 feature(s) remain(s)");
    assert_eq!(DeriveCommand::remaining_message(0), "\nAll features merged. Derivation complete");
}

#[test]
fn status_texts() {
    assert_eq!(StatusCommand::status_body("On branch x\n  body line\n\n"), "body line");
    assert!(StatusCommand::has_unmerged_paths("You have unmerged paths.\n"));
    assert!(!StatusCommand::has_unmerged_paths("clean"));
    assert_eq!(StatusCommand::state_message(DerivationState::Idle), "No derivation in progress");
    assert_eq!(StatusCommand::state_message(DerivationState::InProgress), "Derivation in progress");
}

#[test]
fn checkout_texts() {
    let not_found = ModelError::PathNotFound(PathNotFoundError::new("x".to_string()));
    assert_eq!(
        CheckoutCommand::checkout_error(&not_found, "/main/x").to_string(),
        "Cannot checkout /main/x: path does not exist"
    );
    assert_eq!(
        CheckoutCommand::remaining_output("Switched to branch 'x'\nYour branch is up to date.\n"),
        "Your branch is up to date."
    );
}

#[test]
fn ls_target_drops_trailing_slash() {
    let t = LSCommand::target(NormalizedPath::from_str("/main/feature/"));
    assert_eq!(t.to_string(), "/main/feature");
    let u = LSCommand::target(NormalizedPath::from_str("/main"));
    assert_eq!(u.to_string(), "/main");
}

#[test]
fn feature_and_product_bases() {
    let current = NormalizedPath::from_str("/main/feature/a");
    let root = NormalizedPath::from_str("/main/feature");
    assert_eq!(
        FeatureCommand::creation_base(NodeType::ConcreteFeature, &current, &root).unwrap().to_string(),
        "/main/feature/a"
    );
    assert_eq!(
        FeatureCommand::creation_base(NodeType::ConcreteArea, &current, &root).unwrap().to_string(),
        "/main/feature"
    );
    assert_eq!(
        FeatureCommand::creation_base(NodeType::ConcreteProduct, &current, &root).unwrap_err().to_string(),
        "Cannot create feature: Current branch is not a feature or area branch"
    );
    assert_eq!(
        ProductCommand::creation_base(NodeType::ConcreteFeature, &current, &root).unwrap_err().to_string(),
        "Cannot create product: Current branch is not a product or area branch"
    );
    assert_eq!(
        FeatureCommand::deletion_base(NodeType::ConcreteArea, &current, &root).to_string(),
        "/main/feature"
    );
    assert_eq!(
        ProductCommand::deletion_base(NodeType::ConcreteProduct, &current, &root).to_string(),
        "/main/feature/a"
    );
}

#[test]
fn commit_and_tag_texts() {
    assert!(CommitCommand::product_hints(DerivationState::InProgress).is_empty());
    assert_eq!(
        CommitCommand::product_hints(DerivationState::Idle),
        vec![
            "Hint: You commited to a product branch containing features.",
            "Hint: Use \"tangl untie\" to copy the commit onto a feature."
        ]
    );
    assert_eq!(
        CommitCommand::feature_conflict_warning("2"),
        "\nWarning: Commit stands in conflict with 2 other feature(s)"
    );
    assert_eq!(TagCommand::tag_lines(&vec![]), vec!["No tags on current branch"]);
    assert_eq!(TagCommand::tag_lines(&vec!["v1".to_string()]), vec!["v1"]);
    assert_eq!(
        SpreadCommand::conflict_message("c", "p"),
        "Encountered conflict while spreading to c\nFix all conflicts, then rerun the spread command from p"
    );
    assert_eq!(TangleCommand::format_completions(), vec!["native", "waffle", "uvl"]);
}

#[test]
fn clone_tracking() {
    let remotes = vec![
        "origin/HEAD".to_string(),
        "origin/main".to_string(),
        "origin/_main/_feature/origin/x".to_string(),
    ];
    assert_eq!(
        CloneCommand::tracking_pairs(&remotes),
        vec![
            ("main".to_string(), "origin/main".to_string()),
            ("_main/_feature/x".to_string(), "origin/_main/_feature/origin/x".to_string())
        ]
    );
}
