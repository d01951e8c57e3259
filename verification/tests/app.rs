use baraddur::config::{Config, ConfigSource, OnFailureConfig, OutputConfig, Step, WatchConfig};
use baraddur::output::Verbosity;
use baraddur::pipeline::StepResult;
use baraddur::{
    apply_profile, gate_exit_code, gate_hook_config, gate_skips_pipeline, insert_profile, rel_paths,
    root_is_config_dir, run_log_content, run_once_hook_input, run_passed, verbosity_from_flags,
    RunOnceOptions,
};
use std::time::Duration;

fn result(name: &str, success: bool, stdout: &str, stderr: &str) -> StepResult {
    StepResult {
        name: name.into(),
        success,
        exit_code: Some(if success { 0 } else { 2 }),
        stdout: stdout.into(),
        stderr: stderr.into(),
        duration: Duration::from_millis(5),
        stdout_truncated: false,
        stderr_truncated: false,
    }
}

fn step(name: &str) -> Step {
    Step { name: name.into(), cmd: "true".into(), parallel: false, if_changed: Vec::new() }
}

fn config(steps: Vec<Step>, profiles: Vec<(String, Vec<String>)>) -> Config {
    Config {
        watch: WatchConfig { extensions: vec!["rs".into()], debounce_ms: 500, ignore: Vec::new() },
        output: OutputConfig { clear_screen: true, show_passing: false },
        on_failure: OnFailureConfig {
            enabled: false,
            cmd: String::new(),
            prompt: String::new(),
            timeout_secs: 30,
        },
        steps,
        profiles,
    }
}

#[test]
fn run_log_lists_every_step() {
    let results = vec![
        result("fmt", true, "formatted", ""),
        result("test", false, "1 failed\n", "panic"),
    ];
    assert_eq!(
        run_log_content(&results),
        "═══ fmt (pass) ═══\nformatted\n\n═══ test (FAIL) ═══\n1 failed\n--- stderr ---\npanic\n\n"
    );
    assert_eq!(run_log_content(&[]), "");
}

#[test]
fn rel_paths_strips_the_root() {
    let paths = vec!["/p/src/a.rs".to_string(), "/other/b.rs".to_string(), "/p".to_string()];
    assert_eq!(
        rel_paths(&paths, "/p"),
        vec!["src/a.rs".to_string(), "/other/b.rs".to_string(), String::new()]
    );
}

#[test]
fn run_once_hook_decision() {
    let failing = vec![result("a", true, "", ""), result("b", false, "x", "")];
    let passing = vec![result("a", true, "", "")];
    assert!(!run_passed(&failing));
    assert!(run_passed(&passing));
    assert!(run_passed(&[]));
    assert_eq!(
        run_once_hook_input(&failing, false, true).as_deref(),
        Some("=== b (exit: 2) ===\nx\n\n")
    );
    assert!(run_once_hook_input(&failing, true, true).is_none());
    assert!(run_once_hook_input(&failing, false, false).is_none());
    assert!(run_once_hook_input(&passing, false, true).is_none());
    let opts = RunOnceOptions::default();
    assert!(!opts.no_hook);
    assert!(opts.initial_trigger.is_none());
}

#[test]
fn verbosity_flags() {
    assert_eq!(verbosity_from_flags(true, 3), Verbosity::Quiet);
    assert_eq!(verbosity_from_flags(false, 0), Verbosity::Normal);
    assert_eq!(verbosity_from_flags(false, 1), Verbosity::Verbose);
    assert_eq!(verbosity_from_flags(false, 2), Verbosity::Debug);
}

#[test]
fn gate_rules() {
    let cfg = OnFailureConfig { enabled: true, cmd: "x".into(), prompt: "p".into(), timeout_secs: 30 };
    assert_eq!(gate_hook_config(&cfg).timeout_secs, 15);
    let short = OnFailureConfig { timeout_secs: 5, ..cfg.clone() };
    assert_eq!(gate_hook_config(&short).timeout_secs, 5);
    assert_eq!(gate_hook_config(&short).cmd, "x");
    let none: Vec<String> = Vec::new();
    let some = vec!["a.rs".to_string()];
    assert!(gate_skips_pipeline(true, Some(&none)));
    assert!(!gate_skips_pipeline(true, Some(&some)));
    assert!(!gate_skips_pipeline(false, Some(&none)));
    assert!(!gate_skips_pipeline(true, None));
    assert_eq!(gate_exit_code(42), 42);
    assert_eq!(gate_exit_code(0), 0);
    assert_eq!(gate_exit_code(300), 1);
    assert_eq!(gate_exit_code(-1), 1);
    assert!(root_is_config_dir(ConfigSource::WalkUp));
    assert!(!root_is_config_dir(ConfigSource::Global));
    assert!(!root_is_config_dir(ConfigSource::CliOverride));
}

#[test]
fn profiles_narrow_the_steps() {
    let mut cfg = config(
        vec![step("fmt"), step("lint"), step("test")],
        vec![("quick".into(), vec!["test".into(), "fmt".into()])],
    );
    apply_profile(&mut cfg, "quick").unwrap();
    let names: Vec<String> = cfg.steps.iter().map(|s| s.name.clone()).collect();
    assert_eq!(names, vec!["fmt".to_string(), "test".to_string()]);
    let err = apply_profile(&mut cfg, "nope").unwrap_err();
    assert_eq!(err, "unknown profile `nope`");
    assert_eq!(cfg.steps.len(), 2);
}

#[test]
fn insert_profile_keeps_names_sorted_and_distinct() {
    let mut profiles: Vec<(String, Vec<String>)> = Vec::new();
    insert_profile(&mut profiles, "test".into(), vec!["unit".into()]);
    insert_profile(&mut profiles, "fast".into(), vec!["fmt".into()]);
    insert_profile(&mut profiles, "lint".into(), vec!["clippy".into()]);
    insert_profile(&mut profiles, "fast".into(), vec!["fmt".into(), "check".into()]);
    let names: Vec<&str> = profiles.iter().map(|(n, _)| n.as_str()).collect();
    assert_eq!(names, vec!["fast", "lint", "test"]);
    assert_eq!(profiles[0].1, vec!["fmt".to_string(), "check".to_string()]);
    assert_eq!(profiles[2].1, vec!["unit".to_string()]);
}
