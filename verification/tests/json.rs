use baraddur::output::json::{JsonDisplay, JsonEvent};
use baraddur::pipeline::StepResult;
use std::time::Duration;

fn step_result(name: &str, success: bool, stdout: &str, truncated: bool) -> StepResult {
    StepResult {
        name: name.into(),
        success,
        exit_code: Some(if success { 0 } else { 1 }),
        stdout: stdout.into(),
        stderr: String::new(),
        duration: Duration::from_millis(42),
        stdout_truncated: truncated,
        stderr_truncated: false,
    }
}

#[test]
fn run_counter_increments_per_run() {
    let mut d = JsonDisplay::new();
    d.run_started(&["a".into()]);
    assert_eq!(d.run_count, 1);
    d.run_finished(&[]);
    d.run_started(&["a".into()]);
    assert_eq!(d.run_count, 2);
}

#[test]
fn skipped_counter_resets_per_run() {
    let mut d = JsonDisplay::new();
    d.run_started(&["a".into(), "b".into()]);
    d.steps_skipped(&["b".into()]);
    assert_eq!(d.skipped_in_run, 1);
    d.run_finished(&[]);
    d.run_started(&["a".into()]);
    assert_eq!(d.skipped_in_run, 0);
}

#[test]
fn trigger_consumed_on_run_started() {
    let mut d = JsonDisplay::new();
    d.set_trigger(&["foo.rs".to_string()]);
    assert!(d.trigger_paths.is_some());
    d.run_started(&["a".into()]);
    assert!(d.trigger_paths.is_none(), "run_started must consume trigger");
}

#[test]
fn parse_lines_helper_used() {
    let parsed: Vec<serde_json::Value> = "{\"a\":1}\n{\"b\":2}\n"
        .lines()
        .filter(|l| !l.is_empty())
        .map(|l| serde_json::from_str::<serde_json::Value>(l).expect("valid json line"))
        .collect();
    assert_eq!(parsed.len(), 2);
}

#[test]
fn step_result_constructor_is_used() {
    let r = step_result("fmt", true, "ok\n", false);
    assert_eq!(r.name, "fmt");
    assert!(r.success);
    assert!(!r.stdout_truncated);
}

#[test]
fn run_started_event_carries_run_steps_and_trigger() {
    let mut d = JsonDisplay::new();
    d.set_trigger(&["src/a.rs".to_string(), "src/b.rs".to_string()]);
    match d.run_started(&["fmt".into(), "test".into()]) {
        JsonEvent::RunStarted { run, steps, trigger } => {
            assert_eq!(run, 1);
            assert_eq!(steps, vec!["fmt".to_string(), "test".to_string()]);
            assert_eq!(trigger, Some(vec!["src/a.rs".to_string(), "src/b.rs".to_string()]));
        }
        other => panic!("unexpected event {other:?}"),
    }
    match d.run_started(&["fmt".into()]) {
        JsonEvent::RunStarted { run, trigger, .. } => {
            assert_eq!(run, 2);
            assert!(trigger.is_none());
        }
        other => panic!("unexpected event {other:?}"),
    }
}

#[test]
fn step_finished_strips_ansi_from_captured_output() {
    let d = JsonDisplay::new();
    let mut r = step_result("lint", false, "\x1b[31merror\x1b[0m: bad\n", true);
    r.stderr = "\x1b[1mwarn\x1b[0m".to_string();
    match d.step_finished(&r) {
        JsonEvent::StepFinished {
            name,
            success,
            exit_code,
            duration,
            stdout,
            stdout_truncated,
            stderr,
            stderr_truncated,
        } => {
            assert_eq!(name, "lint");
            assert!(!success);
            assert_eq!(exit_code, Some(1));
            assert_eq!(duration, Duration::from_millis(42));
            assert_eq!(stdout, "error: bad\n");
            assert!(stdout_truncated);
            assert_eq!(stderr, "warn");
            assert!(!stderr_truncated);
        }
        other => panic!("unexpected event {other:?}"),
    }
}

#[test]
fn run_finished_counts_passed_failed_and_skipped() {
    let mut d = JsonDisplay::new();
    d.run_started(&["a".into(), "b".into(), "c".into(), "d".into()]);
    let skipped = d.steps_skipped(&["c".into(), "d".into()]);
    assert_eq!(skipped.len(), 2);
    match &skipped[1] {
        JsonEvent::StepSkipped { name } => assert_eq!(name, "d"),
        other => panic!("unexpected event {other:?}"),
    }
    let results = vec![step_result("a", true, "", false), step_result("b", false, "", false)];
    match d.run_finished(&results) {
        JsonEvent::RunFinished { run, passed, failed, skipped } => {
            assert_eq!((run, passed, failed, skipped), (1, 1, 1, 2));
        }
        other => panic!("unexpected event {other:?}"),
    }
    match d.run_cancelled() {
        JsonEvent::RunCancelled { run } => assert_eq!(run, 1),
        other => panic!("unexpected event {other:?}"),
    }
}
