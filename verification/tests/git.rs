use baraddur::git::{parse_nul, rebase_for_app};

fn strings(v: &[&str]) -> Vec<Vec<u8>> {
    v.iter().map(|s| s.as_bytes().to_vec()).collect()
}

#[test]
fn parse_nul_basic() {
    let paths = parse_nul(b"a.rs\0b/c.rs\0");
    assert_eq!(paths, strings(&["a.rs", "b/c.rs"]));
}

#[test]
fn parse_nul_handles_paths_with_spaces() {
    let paths = parse_nul(b"foo bar.rs\0baz qux.rs\0");
    assert_eq!(paths, strings(&["foo bar.rs", "baz qux.rs"]));
}

#[test]
fn parse_nul_drops_empty_chunks() {
    let paths = parse_nul(b"a\0\0b\0");
    assert_eq!(paths, strings(&["a", "b"]));
}

#[test]
fn parse_nul_no_trailing_nul() {
    let paths = parse_nul(b"a\0b");
    assert_eq!(paths, strings(&["a", "b"]));
}

#[test]
fn parse_nul_of_concatenated_outputs_is_concatenation() {
    let mut joined = b"x.rs\0y.rs".to_vec();
    joined.push(0);
    joined.extend_from_slice(b"z.rs\0");
    let mut expected = parse_nul(b"x.rs\0y.rs");
    expected.extend(parse_nul(b"z.rs\0"));
    assert_eq!(parse_nul(&joined), expected);
    assert_eq!(parse_nul(&joined), strings(&["x.rs", "y.rs", "z.rs"]));
}

#[test]
fn parse_nul_empty_and_only_separators() {
    assert!(parse_nul(b"").is_empty());
    assert!(parse_nul(b"\0\0\0").is_empty());
}

#[test]
fn parse_nul_keeps_raw_bytes() {
    let paths = parse_nul(b"a\xffb\0");
    assert_eq!(paths, vec![b"a\xffb".to_vec()]);
}

#[test]
fn rebase_drops_paths_outside_app_root() {
    let git_paths = strings(&["sub/a.rs", "other/b.rs"]);
    let rebased = rebase_for_app(b"/repo", b"/repo/sub", &git_paths);
    assert_eq!(rebased, strings(&["a.rs"]));
}

#[test]
fn rebase_when_app_equals_repo() {
    let git_paths = strings(&["a.rs", "sub/b.rs"]);
    let rebased = rebase_for_app(b"/repo", b"/repo", &git_paths);
    assert_eq!(rebased, strings(&["a.rs", "sub/b.rs"]));
}

#[test]
fn rebase_keeps_order_and_nested_paths() {
    let git_paths = strings(&["app/x/y.rs", "docs/z.md", "app/w.rs"]);
    let rebased = rebase_for_app(b"/r", b"/r/app", &git_paths);
    assert_eq!(rebased, strings(&["x/y.rs", "w.rs"]));
}

#[test]
fn rebase_keeps_non_utf8_bytes() {
    let git_paths = vec![b"app/\xfe\xff.rs".to_vec(), b"app//./n\xe9.rs".to_vec()];
    let rebased = rebase_for_app(b"/r", b"/r/app", &git_paths);
    assert_eq!(rebased, vec![b"\xfe\xff.rs".to_vec(), b"n\xe9.rs".to_vec()]);
}
