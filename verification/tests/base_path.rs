use tangl::base::model::NormalizedPath;

fn p(s: &str) -> NormalizedPath {
    NormalizedPath::from_str(s)
}

fn segs(path: &NormalizedPath) -> Vec<String> {
    path.segments().clone()
}

#[test]
fn normalized_path_test_normalized_path_from_qualified() {
    assert_eq!(segs(&p("foo/bar")), vec!["foo", "bar"]);
    assert_eq!(segs(&p("/foo/bar")), vec!["", "foo", "bar"]);
    assert_eq!(p("/foo/bar").to_string(), "/foo/bar");
    assert_eq!(segs(&p("foo/")), vec!["foo", ""]);
    assert_eq!(segs(&p("/")), vec!["", ""]);
}

#[test]
fn normalized_path_test_normalized_path_from_git_branch() {
    assert_eq!(segs(&p("_foo/bar")), vec!["foo", "bar"]);
    assert_eq!(segs(&NormalizedPath::from_str(&"_foo/bar".to_string())), vec!["foo", "bar"]);
    assert_eq!(segs(&p("_foo/_bar/baz")), vec!["foo", "bar", "baz"]);
}

#[test]
fn normalized_path_test_normalized_path_to_git_object() {
    assert_eq!(p("foo/bar").to_git_branch(), "_foo/bar");
    assert_eq!(p("/foo/bar").to_git_branch(), "_foo/bar");
    assert_eq!(p("/foo/bar/c:abc").to_git_branch(), "abc");
    assert_eq!(p("/foo/bar/t:1.0.0").to_git_branch(), "_foo/_bar/1.0.0");
}

#[test]
fn normalized_path_test_normalized_path_add_empty() {
    let l = NormalizedPath::new();
    let r = p("foo/bar");
    assert_eq!(l.add(r), p("foo/bar"));

    let l = NormalizedPath::new();
    let r = p("/foo/bar");
    assert_eq!(l.add(r), p("/foo/bar"));
}

#[test]
fn normalized_path_test_normalized_path_add_absolute() {
    let l = p("foo");
    let r = p("bar/baz");
    assert_eq!(l.add(r), p("foo/bar/baz"));

    let l = p("");
    let r = p("bar/baz");
    assert_eq!(segs(&l.add(r)), vec!["", "bar", "baz"]);

    let l = p("foo/");
    let r = p("bar/baz");
    assert_eq!(l.add(r), p("foo/bar/baz"));
}

#[test]
fn normalized_path_test_normalized_path_add_relative() {
    assert_eq!(p("foo").add(p("..")), NormalizedPath::new());
    assert_eq!(p("foo").add(p("./bar")), p("foo/bar"));
    assert_eq!(p("foo").add(p("./")), p("foo/"));
    assert_eq!(p("foo").add(p("../bar")), p("bar"));
    assert_eq!(p("foo/bar").add(p("../baz")), p("foo/baz"));
    assert_eq!(p("foo/bar").add(p("../../baz")), p("baz"));
    assert_eq!(p("foo/bar").add(p("../../../../../../baz")), p("baz"));
    assert_eq!(p("foo/bar").add(p("baz/../baz/../baz/../baz")), p("foo/bar/baz"));
    assert_eq!(p("foo/bar").add(p("../baz/../baz/../baz")), p("foo/baz"));
}

#[test]
fn normalized_path_test_normalized_path_add_whitespaces() {
    assert_eq!(p("foo").add(p("")), p("foo/"));
    assert_eq!(p("foo").add(p("/bar/baz")), p("/bar/baz"));
}

#[test]
fn normalized_path_test_normalized_path_trim() {
    let path = p("foo/bar");
    assert_eq!(segs(&path.strip_n(0, path.len() - 1)), vec!["foo"]);
}

#[test]
fn normalized_path_test_normalized_path_as_absolute() {
    let path = p("foo/bar");
    let absolute = path.as_absolute();
    assert!(absolute.is_absolute());
    assert_eq!(absolute.to_string(), "/foo/bar");
}

#[test]
fn base_path_lowercases_segments() {
    assert_eq!(segs(&p("/Main/FEATURE/Ärger")), vec!["", "main", "feature", "ärger"]);
}

#[test]
fn base_path_version_set_then_strip() {
    let original = p("/main/feature/foo");
    let mut versioned = p("/main/feature/foo");
    versioned.set_version_appendix(Some("1.0"));
    assert_eq!(versioned.get_version_appendix(), Some("1.0".to_string()));
    assert_eq!(versioned.len(), original.len());
    assert_eq!(segs(&versioned.strip_version()), segs(&original));
}
