use baraddur::config::Step;
use baraddur::pipeline::run::{plan_steps, select_steps, PipelineRun};
use baraddur::pipeline::StepResult;
use std::time::Duration;

fn step(name: &str, cmd: &str, parallel: bool, if_changed: &[&str]) -> Step {
    Step {
        name: name.into(),
        cmd: cmd.into(),
        parallel,
        if_changed: if_changed.iter().map(|s| s.to_string()).collect(),
    }
}

fn result(name: &str, success: bool) -> StepResult {
    StepResult {
        name: name.into(),
        success,
        exit_code: Some(if success { 0 } else { 1 }),
        stdout: String::new(),
        stderr: String::new(),
        duration: Duration::from_millis(1),
        stdout_truncated: false,
        stderr_truncated: false,
    }
}

fn names(steps: &[Step]) -> Vec<String> {
    steps.iter().map(|s| s.name.clone()).collect()
}

#[test]
fn only_steps_narrows_to_named_subset() {
    let steps = vec![step("a", "true", false, &[]), step("b", "true", false, &[]), step("c", "true", false, &[])];
    let only = vec!["b".to_string()];
    let chosen = select_steps(&steps, Some(&only));
    assert_eq!(names(&chosen), vec!["b".to_string()]);
}

#[test]
fn only_steps_empty_runs_nothing() {
    let steps = vec![step("a", "true", false, &[])];
    let only: Vec<String> = Vec::new();
    let planned = plan_steps(&steps, None, Some(&only)).unwrap();
    assert!(planned.is_empty());
}

#[test]
fn no_only_keeps_every_step_in_order() {
    let steps = vec![step("a", "x", false, &[]), step("b", "y", true, &[])];
    let chosen = select_steps(&steps, None);
    assert_eq!(names(&chosen), vec!["a".to_string(), "b".to_string()]);
    assert_eq!(chosen[1].cmd, "y");
    assert!(chosen[1].parallel);
}

#[test]
fn only_keeps_config_order_not_list_order() {
    let steps = vec![step("a", "x", false, &[]), step("b", "y", false, &[]), step("c", "z", false, &[])];
    let only = vec!["c".to_string(), "a".to_string(), "nope".to_string()];
    assert_eq!(names(&select_steps(&steps, Some(&only))), vec!["a".to_string(), "c".to_string()]);
}

#[test]
fn plan_applies_trigger_after_only() {
    let steps = vec![
        step("fmt", "fmt {files}", false, &["**/*.rs"]),
        step("docs", "mdlint", false, &["**/*.md"]),
        step("all", "make", false, &[]),
    ];
    let trigger = vec!["src/a.rs".to_string()];
    let only = vec!["fmt".to_string(), "docs".to_string()];
    let planned = plan_steps(&steps, Some(&trigger), Some(&only)).unwrap();
    assert_eq!(names(&planned), vec!["fmt".to_string()]);
    assert_eq!(planned[0].cmd, "fmt src/a.rs");
}

#[test]
fn plan_reports_invalid_glob_on_trigger() {
    let steps = vec![step("bad", "x", false, &["[oops"])];
    let trigger = vec!["a.rs".to_string()];
    assert!(plan_steps(&steps, Some(&trigger), None).is_err());
}

#[test]
fn stage_failure_skips_subsequent_stages() {
    let mut run = PipelineRun::new();
    assert!(run.should_run());
    run.record_stage(vec![result("a", true)]);
    assert!(run.should_run());
    run.record_stage(vec![result("b", false), result("c", true)]);
    assert!(!run.should_run());
    run.skip_stage(vec!["d".to_string()]);
    run.take_stage(None, vec!["e".to_string(), "f".to_string()]);
    assert!(!run.should_run());
    let ran: Vec<String> = run.results.iter().map(|r| r.name.clone()).collect();
    assert_eq!(ran, vec!["a".to_string(), "b".to_string(), "c".to_string()]);
    assert_eq!(run.skipped, vec!["d".to_string(), "e".to_string(), "f".to_string()]);
}

#[test]
fn all_passing_stages_all_run() {
    let mut run = PipelineRun::new();
    run.take_stage(Some(vec![result("a", true)]), vec!["a".to_string()]);
    run.take_stage(Some(vec![result("b", true), result("c", true)]), vec!["b".to_string(), "c".to_string()]);
    assert!(run.should_run());
    assert_eq!(run.results.len(), 3);
    assert!(run.skipped.is_empty());
}

#[test]
fn trigger_excludes_steps_with_no_glob_matches() {
    let steps = vec![
        step("rust", "true", false, &["**/*.rs"]),
        step("ts", "true", false, &["**/*.ts"]),
    ];
    let trigger = vec!["src/app.ts".to_string()];
    let plan = plan_steps(&steps, Some(&trigger), None).unwrap();
    assert_eq!(plan.len(), 1);
    assert_eq!(plan[0].name, "ts");
    assert!(!names(&plan).iter().any(|n| n.contains("rust")));
}

#[test]
fn files_template_substitutes_matched_paths() {
    let steps = vec![step("echo", "printf %s {files}", false, &["**/*.rs"])];
    let trigger = vec!["src/a.rs".to_string(), "README.md".to_string()];
    let plan = plan_steps(&steps, Some(&trigger), None).unwrap();
    assert_eq!(plan.len(), 1);
    assert_eq!(plan[0].cmd, "printf %s src/a.rs");
}

#[test]
fn initial_run_runs_all_steps_ignoring_if_changed() {
    let steps = vec![step("rust", "true", false, &["**/*.rs"])];
    let plan = plan_steps(&steps, None, None).unwrap();
    assert_eq!(plan.len(), 1);
    assert_eq!(plan[0].name, "rust");
}
