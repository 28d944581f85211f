use tangl::git::interface::{
    classify_cherry_pick, classify_merge, output_to_result, parse_branch_listing, parse_file_list,
    parse_tag_listing, pending_merge, split_lines, GitCLI, GitInterface, GitPath, MergeOutcome,
};
use tangl::model::{CommitHash, ConcreteFeature, NormalizedPath, ConcreteArea};

const HASH: &str = "0123456789abcdef0123456789abcdef01234567";

fn populated() -> GitInterface {
    let mut interface = GitInterface::new(GitPath::CustomDirectory("/tmp/repo".to_string()));
    let listing = format!(
        "_main/_feature/_root/bar {HASH}\n_main/_feature/_root/baz {HASH}\n_main/_feature/_root/foo {HASH}\n_main/_feature/root {HASH}\nmain {HASH}\n"
    );
    interface.update_complete_model(&listing, "");
    interface
}

#[test]
fn interface_populate_model() {
    let interface = populated();
    let paths: Vec<String> = interface
        .get_model()
        .get_qualified_paths_with_branches()
        .iter()
        .map(|p| p.to_string())
        .collect();
    assert_eq!(
        paths,
        vec![
            "/main/feature/root/bar",
            "/main/feature/root/baz",
            "/main/feature/root/foo",
            "/main/feature/root",
            "/main",
        ]
    );
}

#[test]
fn interface_get_current_branch_absolute() {
    let interface = populated();
    let current = interface.get_current_normalized_path("main");
    assert_eq!(current.to_string(), "/main");
}

#[test]
fn interface_current_area_is_main() {
    let interface = populated();
    let area = interface.get_current_area("_main/_feature/_root/foo");
    assert_eq!(area.to_normalized_path().to_string(), "/main");
}

#[test]
fn interface_assert_feature_path() {
    let interface = populated();
    let path = NormalizedPath::from_str("/main/feature/root/foo");
    assert!(interface.assert_path::<ConcreteFeature>(&path).is_ok());
    let area = NormalizedPath::from_str("/main");
    assert!(interface.assert_path::<ConcreteFeature>(&area).is_err());
    assert!(interface.assert_path::<ConcreteArea>(&area).is_ok());
    let missing = NormalizedPath::from_str("/main/feature/nothing");
    assert!(interface.assert_path::<ConcreteFeature>(&missing).is_err());
}

#[test]
fn interface_current_node_path_wrong_type() {
    let interface = populated();
    match interface.assert_current_node_path::<ConcreteFeature>("main") {
        Ok(_) => panic!("main is not a feature"),
        Err(e) => assert_eq!(e.to_string(), "fatal: current branch is not of type 'feature'"),
    }
}

#[test]
fn interface_commands_in_custom_directory() {
    let interface = GitInterface::new(GitPath::CustomDirectory("/tmp/repo".to_string()));
    assert_eq!(
        interface.initialize_repo(),
        vec!["--git-dir=/tmp/repo/.git", "--work-tree=/tmp/repo", "init", "--initial-branch=main"]
    );
    assert_eq!(
        interface.reset_hard(&CommitHash::new("abc".to_string())),
        vec!["--git-dir=/tmp/repo/.git", "--work-tree=/tmp/repo", "reset", "--hard", "abc"]
    );
}

#[test]
fn interface_commands_in_current_directory() {
    let interface = GitInterface::new(GitPath::CurrentDirectory);
    assert_eq!(interface.status(), vec!["status"]);
    assert_eq!(interface.abort_merge(), vec!["merge", "--abort"]);
    assert_eq!(interface.abort_cherry_pick(), vec!["cherry-pick", "--abort"]);
    assert_eq!(
        interface.cherry_pick("x".to_string(), true),
        vec!["cherry-pick", "--no-commit", "x"]
    );
    assert_eq!(interface.cherry_pick("x".to_string(), false), vec!["cherry-pick", "x"]);
    assert_eq!(interface.merge("_main/_feature/foo".to_string()), vec!["merge", "_main/_feature/foo"]);
    assert_eq!(
        interface.iter_commit_history("main".to_string(), 1),
        vec!["log", "-n", "1", "--format=%H", "main"]
    );
    assert_eq!(
        interface.get_commit_from_hash(&CommitHash::new("abc".to_string())),
        vec!["log", "--format=%B", "-n 1", "abc"]
    );
    assert_eq!(
        interface.get_files_managed_by_branch("main".to_string()),
        vec!["ls-tree", "-r", "--name-only", "main"]
    );
    assert_eq!(
        interface.get_files_changed_by_commit(&CommitHash::new("abc".to_string())),
        vec!["diff-tree", "--no-commit-id", "--name-only", "abc", "-r"]
    );
    assert_eq!(
        interface.commit("msg".to_string(), true),
        vec!["commit", "--allow-empty", "-m", "msg"]
    );
    assert_eq!(interface.commit("msg".to_string(), false), vec!["commit", "-m", "msg"]);
}

#[test]
fn interface_branch_commands() {
    let interface = GitInterface::new(GitPath::CurrentDirectory);
    let path = NormalizedPath::from_str("/main/feature/foo");
    assert_eq!(interface.checkout(&path), vec!["checkout", "_main/_feature/foo"]);
    assert_eq!(interface.delete_branch(&path), vec!["branch", "-D", "_main/_feature/foo"]);
}

#[test]
fn interface_create_branch_checks_type() {
    let mut interface = populated();
    let feature = NormalizedPath::from_str("/main/feature/root/new");
    let made = interface.create_branch::<ConcreteFeature>(&feature, HASH.to_string());
    assert_eq!(made.unwrap(), vec!["--git-dir=/tmp/repo/.git", "--work-tree=/tmp/repo", "branch", "_main/_feature/_root/new"]);
    let area = NormalizedPath::from_str("/develop");
    let refused = interface.create_branch::<ConcreteFeature>(&area, HASH.to_string());
    assert_eq!(
        refused.unwrap_err().message(),
        "fatal: Expected to create branch of type 'feature', but it would be of type 'area'"
    );
}

#[test]
fn interface_colored_cli() {
    let mut cli = GitCLI::in_current_directory();
    cli.colored(true);
    let args = cli.prepare_command(&vec!["status".to_string()]);
    assert_eq!(args.last().unwrap(), "status");
    assert!(args.len() > 1);
}

#[test]
fn interface_parse_listings() {
    let branches = parse_branch_listing("main abc\n_main/_feature/foo def\n");
    assert_eq!(
        branches,
        vec![
            ("main".to_string(), "abc".to_string()),
            ("_main/_feature/foo".to_string(), "def".to_string())
        ]
    );
    assert_eq!(parse_tag_listing("* v1\nv2\n"), vec![" v1", "v2"]);
    assert_eq!(split_lines("  a\nb \n"), vec!["a", "b"]);
    assert_eq!(parse_file_list("a\nb\n"), vec!["a", "b", ""]);
}

#[test]
fn interface_classify_results() {
    assert_eq!(classify_merge(true, "Already up to date."), MergeOutcome::UpToDate);
    assert_eq!(classify_merge(true, "Fast-forward"), MergeOutcome::Success);
    assert_eq!(classify_merge(false, "CONFLICT (content)"), MergeOutcome::Conflict);
    assert_eq!(classify_merge(false, "fatal: nope"), MergeOutcome::Failed);
    assert_eq!(classify_cherry_pick(true, ""), MergeOutcome::Success);
    assert_eq!(classify_cherry_pick(false, "CONFLICT (content)"), MergeOutcome::Conflict);
    assert_eq!(
        classify_cherry_pick(false, "If you wish to commit it anyway, use"),
        MergeOutcome::UpToDate
    );
    assert_eq!(classify_cherry_pick(false, "error"), MergeOutcome::Failed);
    assert!(pending_merge("You are merging"));
    assert!(!pending_merge("nothing to commit"));
}

#[test]
fn interface_output_to_result() {
    let command = vec!["status".to_string()];
    assert_eq!(output_to_result("out", "", true, 0, &command).unwrap(), "out");
    assert!(output_to_result("", "bad", false, 1, &command).is_err());
}

#[test]
fn interface_populate_model_with_tags() {
    let mut interface = GitInterface::new(GitPath::CustomDirectory("/tmp/repo".to_string()));
    let listing = format!("_main/_feature/root {HASH}\nmain {HASH}\n");
    interface.update_complete_model(&listing, "main/feature/root/v1.0\nmain/v2\n");
    let model = interface.get_model();
    let names: Vec<String> = vec!["main".to_string(), "feature".to_string(), "root".to_string()];
    let root = model.find(&names).unwrap();
    let tags: Vec<String> = root.get_tags().iter().map(|t| t.get_tag().clone()).collect();
    assert_eq!(tags, vec!["v1.0"]);
    let main = model.find(&vec!["main".to_string()]).unwrap();
    let tags: Vec<String> = main.get_tags().iter().map(|t| t.get_tag().clone()).collect();
    assert_eq!(tags, vec!["v2"]);
}
