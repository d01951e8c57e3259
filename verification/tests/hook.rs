use std::time::Duration;

use baraddur::config::OnFailureConfig;
use baraddur::pipeline::hook::{combine_failed_output, hook_command_parts, hook_input, hook_reply};
use baraddur::pipeline::StepResult;

fn pass_result(name: &str) -> StepResult {
    StepResult {
        name: name.into(),
        success: true,
        exit_code: Some(0),
        stdout: String::new(),
        stderr: String::new(),
        duration: Duration::from_millis(10),
        stdout_truncated: false,
        stderr_truncated: false,
    }
}

fn fail_result(name: &str, stdout: &str, stderr: &str) -> StepResult {
    StepResult {
        name: name.into(),
        success: false,
        exit_code: Some(1),
        stdout: stdout.into(),
        stderr: stderr.into(),
        duration: Duration::from_millis(10),
        stdout_truncated: false,
        stderr_truncated: false,
    }
}

#[test]
fn combine_includes_only_failures() {
    let combined = combine_failed_output(&[
        pass_result("ok"),
        fail_result("bad", "error here\n", ""),
        pass_result("also-ok"),
    ]);
    assert!(combined.contains("bad"));
    assert!(combined.contains("error here"));
    assert!(!combined.contains("ok"));
}

#[test]
fn combine_separates_stdout_and_stderr() {
    let combined = combine_failed_output(&[fail_result("bad", "out line\n", "err line\n")]);
    assert!(combined.contains("out line"));
    assert!(combined.contains("--- stderr ---"));
    assert!(combined.contains("err line"));
}

#[test]
fn combine_exact_layout() {
    let mut killed = fail_result("x", "", "boom");
    killed.exit_code = None;
    let combined = combine_failed_output(&[fail_result("bad", "out", "err"), killed]);
    assert_eq!(
        combined,
        "=== bad (exit: 1) ===\nout\n--- stderr ---\nerr\n\n=== x (exit: unknown) ===\nboom\n\n"
    );
}

#[test]
fn combine_negative_exit_code() {
    let mut r = fail_result("neg", "", "");
    r.exit_code = Some(-7);
    assert_eq!(combine_failed_output(&[r]), "=== neg (exit: -7) ===\n\n");
}

#[test]
fn hook_input_prepends_prompt() {
    assert_eq!(hook_input("PROMPT", "DATA"), "PROMPT\n\nDATA");
    assert_eq!(hook_input("", "DATA"), "DATA");
}

#[test]
fn hook_reply_trims_and_drops_empty() {
    assert_eq!(hook_reply("  hello\nworld\n\n").as_deref(), Some("hello\nworld"));
    assert_eq!(hook_reply(" \n\t "), None);
}

#[test]
fn hook_command_parts_errors() {
    let mut cfg = OnFailureConfig::default();
    cfg.cmd = "llm -p".into();
    let (prog, args) = hook_command_parts(&cfg).unwrap();
    assert_eq!(prog, "llm");
    assert_eq!(args, vec!["-p".to_string()]);
    cfg.cmd = "sh -c 'oops".into();
    assert_eq!(
        hook_command_parts(&cfg).unwrap_err(),
        "parsing on_failure.cmd `sh -c 'oops`: missing closing quote"
    );
    cfg.cmd = "   ".into();
    assert_eq!(hook_command_parts(&cfg).unwrap_err(), "on_failure.cmd is empty");
}
