use baraddur::output::diagnostic::{extract_line, parse, parse_path_line_col, Diagnostic};

fn diag(path: &str, line: u32, col: Option<u32>) -> Diagnostic {
    Diagnostic {
        path: path.to_string(),
        line,
        col,
    }
}

#[test]
fn parses_rustc_primary_span() {
    let input = "error[E0277]: trait bound\n  --> src/foo.rs:42:5\n   |\n42 |     ...";
    let diags = parse(input);
    assert_eq!(diags, vec![diag("src/foo.rs", 42, Some(5))]);
}

#[test]
fn parses_clippy_warning() {
    let input = "warning: unused variable: `x`\n  --> src/bar.rs:10:9\n";
    assert_eq!(parse(input), vec![diag("src/bar.rs", 10, Some(9))]);
}

#[test]
fn parses_rustc_context_span() {
    let input = "  --> a.rs:1:1\n  ::: b.rs:2:2\n";
    assert_eq!(
        parse(input),
        vec![diag("a.rs", 1, Some(1)), diag("b.rs", 2, Some(2))]
    );
}

#[test]
fn parses_panic_modern() {
    let input = "thread 'main' panicked at src/foo.rs:42:5:\nassertion failed: false";
    assert_eq!(parse(input), vec![diag("src/foo.rs", 42, Some(5))]);
}

#[test]
fn parses_panic_legacy() {
    let input = "thread 'main' panicked at 'assertion failed', src/foo.rs:42:5";
    assert_eq!(parse(input), vec![diag("src/foo.rs", 42, Some(5))]);
}

#[test]
fn parses_generic_filename_line_col() {
    let input = "src/foo.ts:42:5: error: blah\nsrc/bar.py:10: error: blah";
    assert_eq!(
        parse(input),
        vec![
            diag("src/foo.ts", 42, Some(5)),
            diag("src/bar.py", 10, None),
        ]
    );
}

#[test]
fn rejects_lines_without_path_separator() {
    let input = "Caused by: foo:42 stuff\n";
    assert!(parse(input).is_empty());
}

#[test]
fn dedups_same_location() {
    let input = "  --> src/foo.rs:42:5\n  --> src/foo.rs:42:5\n";
    assert_eq!(parse(input).len(), 1);
}

#[test]
fn keeps_distinct_locations_in_same_file() {
    let input = "  --> src/foo.rs:42:5\n  --> src/foo.rs:50:1\n";
    assert_eq!(parse(input).len(), 2);
}

#[test]
fn handles_absolute_paths() {
    let input = "  --> /home/me/foo.rs:1:1\n";
    assert_eq!(parse(input), vec![diag("/home/me/foo.rs", 1, Some(1))]);
}

#[test]
fn empty_input_returns_empty() {
    assert!(parse("").is_empty());
}

#[test]
fn no_colon_digit_returns_none() {
    assert!(parse("just text with no diags\n").is_empty());
}

#[test]
fn line_number_overflow_is_no_diagnostic() {
    assert_eq!(extract_line("src/a.rs:4294967296:1"), None);
    assert_eq!(
        extract_line("src/a.rs:4294967295:99999999999"),
        Some(diag("src/a.rs", 4294967295, None))
    );
}

#[test]
fn whitespace_before_colon_stops_the_path() {
    assert_eq!(extract_line("a b.rs:1:1"), None);
    assert_eq!(extract_line("\u{a0} x.rs:3"), Some(diag("x.rs", 3, None)));
}

#[test]
fn crlf_lines_are_split() {
    assert_eq!(
        parse("a.rs:1:2\r\nb.rs:3\r\n"),
        vec![diag("a.rs", 1, Some(2)), diag("b.rs", 3, None)]
    );
}

#[test]
fn parse_dedups_paths_equal_by_components() {
    let out = "  --> a//b.rs:1:1\n  --> a/b.rs:1:1\n  --> a/./b.rs:1:1\n  --> a/b.rs:1:2\n";
    let diags = parse(out);
    assert_eq!(
        diags,
        vec![
            Diagnostic { path: "a//b.rs".into(), line: 1, col: Some(1) },
            Diagnostic { path: "a/b.rs".into(), line: 1, col: Some(2) },
        ]
    );
}

#[test]
fn parse_path_line_col_reads_the_first_colon_digit() {
    assert_eq!(
        parse_path_line_col("src/a.rs:12:5: error"),
        Some(Diagnostic { path: "src/a.rs".into(), line: 12, col: Some(5) })
    );
    assert_eq!(
        parse_path_line_col("a.py:7: oops"),
        Some(Diagnostic { path: "a.py".into(), line: 7, col: None })
    );
    assert_eq!(parse_path_line_col("foo:42"), None);
    assert_eq!(parse_path_line_col("src/a b.rs:1"), None);
    assert_eq!(parse_path_line_col(":1"), None);
    assert_eq!(parse_path_line_col("x.rs:99999999999"), None);
}
