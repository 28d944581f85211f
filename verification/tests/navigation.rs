use tangl::model::NormalizedPath;

fn go(from: &str, to: &str) -> Option<String> {
    NormalizedPath::from_str(from)
        .checked_add(NormalizedPath::from_str(to))
        .map(|p| p.to_string())
}

#[test]
fn navigation_relative_child() {
    assert_eq!(go("/main", "feature/foo").unwrap(), "/main/feature/foo");
}

#[test]
fn navigation_absolute() {
    assert_eq!(go("/main", "/main/feature/foo").unwrap(), "/main/feature/foo");
    assert_eq!(go("/main/feature/foo", "/main").unwrap(), "/main");
}

#[test]
fn navigation_parents() {
    assert_eq!(go("/main/feature/foo", "../..").unwrap(), "/main");
    assert_eq!(go("/main/feature/foo", "..").unwrap(), "/main/feature");
}

#[test]
fn navigation_current_dir_stays() {
    assert_eq!(go("/main/feature", ".").unwrap(), "/main/feature");
    assert_eq!(go("/main/feature", "./././.").unwrap(), "/main/feature");
}

#[test]
fn navigation_matches_add_where_defined() {
    let sum = NormalizedPath::from_str("/main/feature/foo").add(NormalizedPath::from_str("../bar"));
    assert_eq!(Some(sum.to_string()), go("/main/feature/foo", "../bar"));
}
