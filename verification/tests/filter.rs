use baraddur::config::Step;
use baraddur::pipeline::filter::filter_and_template;

fn step(name: &str, cmd: &str, if_changed: &[&str]) -> Step {
    Step {
        name: name.into(),
        cmd: cmd.into(),
        parallel: false,
        if_changed: if_changed.iter().map(|s| (*s).into()).collect(),
    }
}

fn paths(ps: &[&str]) -> Vec<String> {
    ps.iter().map(|s| s.to_string()).collect()
}

#[test]
fn no_trigger_runs_all_steps() {
    let steps = vec![step("a", "echo a", &[]), step("b", "echo b", &["**/*.rs"])];
    let out = filter_and_template(&steps, None).unwrap();
    assert_eq!(out.len(), 2);
}

#[test]
fn no_trigger_substitutes_files_to_empty() {
    let steps = vec![step("a", "cargo test {files}", &[])];
    let out = filter_and_template(&steps, None).unwrap();
    assert_eq!(out[0].cmd, "cargo test ");
}

#[test]
fn trigger_with_no_if_changed_passes_all_files() {
    let steps = vec![step("a", "lint {files}", &[])];
    let p = paths(&["src/foo.rs", "README.md"]);
    let out = filter_and_template(&steps, Some(&p)).unwrap();
    assert_eq!(out[0].cmd, "lint src/foo.rs README.md");
}

#[test]
fn trigger_with_if_changed_passes_only_matches() {
    let steps = vec![step("a", "cargo test {files}", &["**/*.rs"])];
    let p = paths(&["src/foo.rs", "README.md"]);
    let out = filter_and_template(&steps, Some(&p)).unwrap();
    assert_eq!(out[0].cmd, "cargo test src/foo.rs");
}

#[test]
fn step_with_no_matches_is_excluded() {
    let steps = vec![
        step("rust", "cargo test", &["**/*.rs"]),
        step("ts", "tsc", &["**/*.ts"]),
    ];
    let p = paths(&["README.md"]);
    let out = filter_and_template(&steps, Some(&p)).unwrap();
    assert!(out.is_empty(), "no globs match — both should be excluded");
}

#[test]
fn step_without_if_changed_always_included_on_trigger() {
    let steps = vec![
        step("always", "true", &[]),
        step("rust", "cargo test", &["**/*.rs"]),
    ];
    let p = paths(&["README.md"]);
    let out = filter_and_template(&steps, Some(&p)).unwrap();
    assert_eq!(out.len(), 1);
    assert_eq!(out[0].name, "always");
}

#[test]
fn paths_with_spaces_get_quoted() {
    let steps = vec![step("a", "ls {files}", &[])];
    let p = paths(&["a b.rs"]);
    let out = filter_and_template(&steps, Some(&p)).unwrap();
    // shell-words quotes with single quotes; sufficient to verify the
    // arg is preserved as one token.
    assert!(
        shell_words::split(&out[0].cmd)
            .unwrap()
            .contains(&"a b.rs".to_string())
    );
}

#[test]
fn invalid_glob_returns_error() {
    let steps = vec![step("a", "true", &["[invalid"])];
    let p = paths(&["x.rs"]);
    let err = filter_and_template(&steps, Some(&p)).unwrap_err();
    assert!(err.contains("step `a`"));
}

#[test]
fn original_step_unchanged_when_no_files_template() {
    let steps = vec![step("a", "cargo check", &["**/*.rs"])];
    let p = paths(&["src/foo.rs"]);
    let out = filter_and_template(&steps, Some(&p)).unwrap();
    assert_eq!(out[0].cmd, "cargo check");
}

#[test]
fn quoted_path_is_exactly_single_quoted() {
    let steps = vec![step("a", "ls {files} && {files}", &[])];
    let p = paths(&["a b.rs", "c.rs"]);
    let out = filter_and_template(&steps, Some(&p)).unwrap();
    assert_eq!(out[0].cmd, "ls 'a b.rs' c.rs && 'a b.rs' c.rs");
}

#[test]
fn invalid_glob_ignored_without_trigger() {
    let steps = vec![step("a", "true", &["[invalid"])];
    let out = filter_and_template(&steps, None).unwrap();
    assert_eq!(out.len(), 1);
}

#[test]
fn invalid_glob_error_names_pattern() {
    let steps = vec![step("ok", "true", &[]), step("a", "true", &["**/*.rs", "[x"])];
    let p = paths(&["x.rs"]);
    let err = filter_and_template(&steps, Some(&p)).unwrap_err();
    assert!(err.starts_with("step `a`: invalid glob `[x`: "), "{err}");
}
