use baraddur::config::schema::{Config, OnFailureConfig, OutputConfig, Step, WatchConfig};
use baraddur::config::validate;

fn base() -> Config {
    Config {
        watch: WatchConfig {
            extensions: vec!["rs".into()],
            debounce_ms: 1000,
            ignore: vec![],
        },
        output: OutputConfig::default(),
        on_failure: OnFailureConfig::default(),
        steps: vec![Step {
            name: "x".into(),
            cmd: "true".into(),
            parallel: false,
            if_changed: Vec::new(),
        }],
        profiles: Vec::new(),
    }
}

#[test]
fn accepts_valid_config() {
    assert!(validate(&base()).is_ok());
}

#[test]
fn rejects_empty_steps() {
    let mut c = base();
    c.steps.clear();
    let err = validate(&c).unwrap_err();
    assert!(err.to_string().contains("no steps"));
}

#[test]
fn rejects_duplicate_step_names() {
    let mut c = base();
    c.steps = vec![
        Step {
            name: "x".into(),
            cmd: "true".into(),
            parallel: false,
            if_changed: Vec::new(),
        },
        Step {
            name: "x".into(),
            cmd: "true".into(),
            parallel: false,
            if_changed: Vec::new(),
        },
    ];
    let err = validate(&c).unwrap_err();
    assert!(err.to_string().contains("duplicate step name `x`"));
}

#[test]
fn rejects_invalid_glob() {
    let mut c = base();
    c.steps[0].if_changed = vec!["[invalid".into()];
    let err = validate(&c).unwrap_err();
    assert!(err.to_string().contains("invalid if_changed glob"));
}

#[test]
fn accepts_valid_globs() {
    let mut c = base();
    c.steps[0].if_changed = vec!["**/*.rs".into(), "src/**/*.toml".into()];
    assert!(validate(&c).is_ok());
}

#[test]
fn rejects_empty_name_and_cmd() {
    let mut c = base();
    c.steps[0].name = "".into();
    c.steps[0].cmd = "".into();
    let err = validate(&c).unwrap_err();
    let s = err.to_string();
    assert!(s.contains("empty `name`"));
    assert!(s.contains("empty `cmd`"));
}

#[test]
fn rejects_tiny_debounce() {
    let mut c = base();
    c.watch.debounce_ms = 5;
    let err = validate(&c).unwrap_err();
    assert!(err.to_string().contains("debounce_ms"));
}

#[test]
fn reports_all_errors_at_once() {
    let mut c = base();
    c.steps[0].name = "".into();
    c.steps[0].cmd = "".into();
    c.watch.debounce_ms = 5;
    let err = validate(&c).unwrap_err();
    assert_eq!(err.0.len(), 3, "should accumulate all errors");
}

#[test]
fn empty_extensions_is_valid() {
    let mut c = base();
    c.watch.extensions.clear();
    assert!(validate(&c).is_ok());
}

#[test]
fn on_failure_enabled_requires_cmd() {
    let mut c = base();
    c.on_failure.enabled = true;
    c.on_failure.cmd = String::new();
    let err = validate(&c).unwrap_err();
    assert!(err.to_string().contains("on_failure.cmd"));
}

#[test]
fn on_failure_disabled_ignores_empty_cmd() {
    let mut c = base();
    c.on_failure.enabled = false;
    c.on_failure.cmd = String::new();
    assert!(validate(&c).is_ok());
}

#[test]
fn rejects_profile_referencing_unknown_step() {
    let mut c = base();
    c.profiles
        .push(("quick".into(), vec!["x".into(), "ghost".into()]));
    let err = validate(&c).unwrap_err();
    let s = err.to_string();
    assert!(s.contains("profile `quick`"));
    assert!(s.contains("ghost"));
}

#[test]
fn accepts_profile_with_defined_steps() {
    let mut c = base();
    c.steps.push(Step {
        name: "y".into(),
        cmd: "true".into(),
        parallel: false,
        if_changed: Vec::new(),
    });
    c.profiles.push(("quick".into(), vec!["x".into()]));
    c.profiles
        .push(("full".into(), vec!["x".into(), "y".into()]));
    assert!(validate(&c).is_ok());
}

#[test]
fn rejects_empty_profile() {
    let mut c = base();
    c.profiles.push(("quick".into(), vec![]));
    let err = validate(&c).unwrap_err();
    assert!(err.to_string().contains("no members"));
}

#[test]
fn on_failure_rejects_zero_timeout() {
    let mut c = base();
    c.on_failure.enabled = true;
    c.on_failure.cmd = "cat".into();
    c.on_failure.timeout_secs = 0;
    let err = validate(&c).unwrap_err();
    assert!(err.to_string().contains("timeout_secs"));
}

#[test]
fn exact_messages_and_layout() {
    let mut c = base();
    c.steps[0].cmd = "sh -c 'x".into();
    c.watch.debounce_ms = 49;
    c.on_failure.enabled = true;
    c.on_failure.cmd = " ".into();
    let err = validate(&c).unwrap_err();
    assert_eq!(
        err.0,
        vec![
            "step 1 (`x`) has an unparseable `cmd`: sh -c 'x".to_string(),
            "watch.debounce_ms = 49 is too small; minimum is 50".to_string(),
            "on_failure.enabled = true but on_failure.cmd is empty".to_string(),
        ]
    );
    assert_eq!(
        err.to_string(),
        "  step 1 (`x`) has an unparseable `cmd`: sh -c 'x\n  watch.debounce_ms = 49 is too small; minimum is 50\n  on_failure.enabled = true but on_failure.cmd is empty"
    );
}

#[test]
fn debounce_of_fifty_is_accepted() {
    let mut c = base();
    c.watch.debounce_ms = 50;
    assert!(validate(&c).is_ok());
}

#[test]
fn blank_names_are_not_duplicates() {
    let mut c = base();
    c.steps[0].name = " ".into();
    c.steps.push(Step {
        name: " ".into(),
        cmd: "true".into(),
        parallel: false,
        if_changed: Vec::new(),
    });
    let err = validate(&c).unwrap_err();
    assert_eq!(
        err.0,
        vec![
            "step 1 has an empty `name`".to_string(),
            "step 2 has an empty `name`".to_string()
        ]
    );
}

#[test]
fn well_formed_config_with_profiles_and_hook_validates() {
    let mut c = base();
    c.steps.push(Step {
        name: "y".into(),
        cmd: "cargo test --quiet".into(),
        parallel: true,
        if_changed: vec!["**/*.rs".into(), "src/**".into()],
    });
    c.watch.debounce_ms = 50;
    c.profiles.push(("quick".into(), vec!["x".into(), "y".into()]));
    c.on_failure = OnFailureConfig {
        enabled: true,
        cmd: "notify me".into(),
        prompt: String::new(),
        timeout_secs: 1,
    };
    assert!(validate(&c).is_ok());
}

#[test]
fn faults_are_reported_one_each_example() {
    let mut c = base();
    c.profiles.push(("quick".into(), vec!["x".into()]));
    assert!(validate(&c).is_ok());
    // Inject every fault: a duplicate name, a blank cmd, a bad glob, a tiny
    // debounce and a profile naming a missing step.
    c.steps.push(Step { name: "x".into(), cmd: "true".into(), parallel: false, if_changed: Vec::new() });
    c.steps[0].cmd = "   ".into();
    c.steps[0].if_changed.push("[unclosed".into());
    c.watch.debounce_ms = 49;
    c.profiles.push(("zz-ghost".into(), vec!["no-such-step".into()]));
    let errs = validate(&c).unwrap_err();
    assert_eq!(errs.0.len(), 5, "errors: {}", errs.to_string());
}
