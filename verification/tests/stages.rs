use baraddur::config::Step;
use baraddur::pipeline::group_into_stages;

fn step(name: &str, parallel: bool) -> Step {
    Step {
        name: name.into(),
        cmd: "true".into(),
        parallel,
        if_changed: Vec::new(),
    }
}

#[test]
fn all_sequential() {
    let steps = vec![step("a", false), step("b", false), step("c", false)];
    let stages = group_into_stages(&steps);
    assert_eq!(stages.len(), 3);
    assert_eq!(stages[0].steps.len(), 1);
    assert_eq!(stages[0].steps[0].name, "a");
    assert!(!stages[0].is_parallel());
}

#[test]
fn all_parallel() {
    let steps = vec![step("a", true), step("b", true), step("c", true)];
    let stages = group_into_stages(&steps);
    assert_eq!(stages.len(), 1);
    assert_eq!(stages[0].steps.len(), 3);
    assert!(stages[0].is_parallel());
}

#[test]
fn mixed_sequential_then_parallel() {
    let steps = vec![
        step("format", false),
        step("compile", false),
        step("credo", true),
        step("test", true),
    ];
    let stages = group_into_stages(&steps);
    assert_eq!(stages.len(), 3);
    assert_eq!(stages[0].steps[0].name, "format");
    assert_eq!(stages[1].steps[0].name, "compile");
    assert_eq!(stages[2].steps.len(), 2);
    assert_eq!(stages[2].steps[0].name, "credo");
    assert_eq!(stages[2].steps[1].name, "test");
}

#[test]
fn parallel_then_sequential() {
    let steps = vec![step("a", true), step("b", true), step("c", false)];
    let stages = group_into_stages(&steps);
    assert_eq!(stages.len(), 2);
    assert_eq!(stages[0].steps.len(), 2);
    assert_eq!(stages[1].steps.len(), 1);
}

#[test]
fn single_step() {
    let steps = vec![step("only", false)];
    let stages = group_into_stages(&steps);
    assert_eq!(stages.len(), 1);
    assert!(!stages[0].is_parallel());
}

#[test]
fn empty_steps() {
    let stages = group_into_stages(&[]);
    assert!(stages.is_empty());
}

#[test]
fn alternating_parallel_sequential() {
    let steps = vec![
        step("a", true),
        step("b", true),
        step("c", false),
        step("d", true),
        step("e", true),
    ];
    let stages = group_into_stages(&steps);
    assert_eq!(stages.len(), 3);
    assert_eq!(stages[0].steps.len(), 2); // a, b
    assert_eq!(stages[1].steps.len(), 1); // c
    assert_eq!(stages[2].steps.len(), 2); // d, e
}

#[test]
fn lone_parallel_step_is_not_a_parallel_stage() {
    let steps = vec![step("a", false), step("b", true), step("c", false)];
    let stages = group_into_stages(&steps);
    assert_eq!(stages.len(), 3);
    assert_eq!(stages[1].steps[0].name, "b");
    assert!(!stages[1].is_parallel());
}
