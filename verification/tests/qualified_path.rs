use tangl::model::{CommitHash, NormalizedPath, VersionPointer};

fn p(s: &str) -> NormalizedPath {
    NormalizedPath::from_str(s)
}

fn segs(path: &NormalizedPath) -> Vec<String> {
    path.segments().clone()
}

#[test]
fn qualified_path_test_normalized_path_from_qualified() {
    assert_eq!(segs(&p("foo/bar")), vec!["foo", "bar"]);
    assert_eq!(segs(&p("/foo/bar")), vec!["", "foo", "bar"]);
    assert_eq!(p("/foo/bar").to_string(), "/foo/bar");
    assert_eq!(segs(&p("foo/")), vec!["foo", ""]);
    assert_eq!(segs(&p("/")), vec!["", ""]);
}

#[test]
fn qualified_path_test_normalized_path_from_git_branch() {
    assert_eq!(segs(&p("_foo/bar")), vec!["foo", "bar"]);
    assert_eq!(segs(&NormalizedPath::from_str(&"_foo/bar".to_string())), vec!["foo", "bar"]);
    assert_eq!(segs(&p("_foo/_bar/baz")), vec!["foo", "bar", "baz"]);
}

#[test]
fn test_normalized_path_from_tag() {
    let path = p("foo/bar/t:1.0.0");
    assert_eq!(segs(&path), vec!["foo", "bar"]);
    assert_eq!(*path.get_head(), VersionPointer::Tag("1.0.0".to_string()));
}

#[test]
fn test_normalized_path_from_commit() {
    let path = p("foo/bar/c:abcdefgh");
    assert_eq!(segs(&path), vec!["foo", "bar"]);
    assert_eq!(
        *path.get_head(),
        VersionPointer::Commit(CommitHash::new("abcdefgh".to_string()))
    );
}

#[test]
fn qualified_path_test_normalized_path_to_git_object() {
    assert_eq!(p("foo/bar").to_git_object(), "_foo/bar");
    assert_eq!(p("/foo/bar").to_git_object(), "_foo/bar");
    assert_eq!(p("/foo/bar/c:abc").to_git_object(), "abc");
    assert_eq!(p("/foo/bar/t:1.0.0").to_git_object(), "_foo/_bar/1.0.0");
}

#[test]
fn qualified_path_test_normalized_path_add_empty() {
    let l = NormalizedPath::new();
    let r = p("foo/bar");
    assert_eq!(l.add(r), p("foo/bar"));

    let l = NormalizedPath::new();
    let r = p("/foo/bar");
    assert_eq!(l.add(r), p("/foo/bar"));
}

#[test]
fn qualified_path_test_normalized_path_add_absolute() {
    assert_eq!(p("foo").add(p("bar/baz")), p("foo/bar/baz"));
    assert_eq!(segs(&p("").add(p("bar/baz"))), vec!["", "bar", "baz"]);
    assert_eq!(p("foo/").add(p("bar/baz")), p("foo/bar/baz"));
}

#[test]
fn qualified_path_test_normalized_path_add_relative() {
    assert_eq!(p("foo").add(p("..")), NormalizedPath::new());
    assert_eq!(p("foo").add(p("./bar")), p("foo/bar"));
    assert_eq!(p("foo").add(p("./")), p("foo/"));
    assert_eq!(p("foo").add(p("../bar")), p("bar"));
    assert_eq!(p("foo/bar").add(p("../baz")), p("foo/baz"));
    assert_eq!(p("foo/bar").add(p("../../baz")), p("baz"));
    assert_eq!(p("foo/bar").add(p("../../../../../../baz")), p("baz"));
    assert_eq!(p("foo/bar").add(p("baz/../baz/../baz/../baz")), p("foo/bar/baz"));
    assert_eq!(p("foo/bar").add(p("../baz/../baz/../baz")), p("foo/baz"));
}

#[test]
fn qualified_path_test_normalized_path_add_whitespaces() {
    assert_eq!(p("foo").add(p("")), p("foo/"));
    assert_eq!(p("foo").add(p("/bar/baz")), p("/bar/baz"));
}

#[test]
fn qualified_path_test_normalized_path_trim() {
    let path = p("foo/bar");
    assert_eq!(segs(&path.strip_n(0, path.len() - 1)), vec!["foo"]);
}

#[test]
fn qualified_path_test_normalized_path_as_absolute() {
    let path = p("foo/bar");
    let absolute = path.as_absolute();
    assert!(absolute.is_absolute());
    assert_eq!(absolute.to_string(), "/foo/bar");
}

#[test]
fn test_normalized_path_add_with_commit() {
    let l = p("foo/bar");
    let r = p("baz/c:abc");
    let result = l.add(r);
    assert_eq!(result.to_string(), "foo/bar/baz");
    assert_eq!(
        *result.get_head(),
        VersionPointer::Commit(CommitHash::new("abc".to_string()))
    );
}

#[test]
fn qualified_path_lowercases_segments() {
    assert_eq!(segs(&p("/Main/FEATURE/Ärger")), vec!["", "main", "feature", "ärger"]);
    // the version markers keep their text
    let tagged = p("Foo/t:V1.0");
    assert_eq!(segs(&tagged), vec!["foo"]);
    assert_eq!(tagged.get_head(), &VersionPointer::Tag("V1.0".to_string()));
}

#[test]
fn qualified_path_short_hash_takes_eight_bytes() {
    assert_eq!(CommitHash::new("0123456789".to_string()).get_short_hash(), "01234567");
    assert_eq!(CommitHash::new("äbcdefghij".to_string()).get_short_hash(), "äbcdefg");
}

#[test]
fn tree_commit_hash_short_and_full() {
    let hash = tangl::model::node::CommitHash::new("0123456789abcdef".to_string());
    assert_eq!(hash.get_short_hash(), "01234567");
    assert_eq!(hash.get_full_hash(), "0123456789abcdef");
}
