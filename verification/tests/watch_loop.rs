use baraddur::output::BrowseAction;
use baraddur::pipeline::StepResult;
use baraddur::watch_loop::{LoopAction, LoopEvent, Phase, WatchLoop};
use std::time::Duration;

fn result(name: &str, success: bool) -> StepResult {
    StepResult {
        name: name.into(),
        success,
        exit_code: Some(if success { 0 } else { 1 }),
        stdout: if success { String::new() } else { "boom".into() },
        stderr: String::new(),
        duration: Duration::from_millis(5),
        stdout_truncated: false,
        stderr_truncated: false,
    }
}

fn kinds(acts: &[LoopAction]) -> Vec<&'static str> {
    acts.iter()
        .map(|a| match a {
            LoopAction::WriteRunLog(_) => "log",
            LoopAction::AbortHook { notify_display: true } => "abort+notify",
            LoopAction::AbortHook { notify_display: false } => "abort",
            LoopAction::SpawnHook(_) => "spawn",
            LoopAction::RunCancelled => "cancelled",
            LoopAction::SetTrigger(_) => "trigger",
            LoopAction::DrainWatcher => "drain",
            LoopAction::DrainKeys => "drain-keys",
            LoopAction::EnterBrowse => "enter",
            LoopAction::ExitBrowse => "exit",
            LoopAction::BrowseRedraw => "redraw",
            LoopAction::HookOutput(_) => "hook-output",
            LoopAction::HookFinished => "hook-finished",
            LoopAction::Shutdown => "shutdown",
            LoopAction::Exit(_) => "die",
        })
        .collect()
}

#[test]
fn run_until_records_failures() {
    let mut l = WatchLoop::new("/p".into(), true, false);
    let acts = l.handle(LoopEvent::Completed(vec![result("a", true), result("b", false)]));
    assert_eq!(kinds(&acts), vec!["log", "drain-keys", "enter"]);
    assert_eq!(l.phase, Phase::Browsing);
    assert_eq!(l.last_failed_steps, Some(vec!["b".to_string()]));
    assert!(l.rerun_filter.is_none());
    match &acts[0] {
        LoopAction::WriteRunLog(text) => {
            assert_eq!(text, "═══ a (pass) ═══\n\n═══ b (FAIL) ═══\nboom\n\n");
        }
        _ => unreachable!(),
    }
    // `f` reruns exactly the failed steps, without the old trigger.
    let acts = l.handle(LoopEvent::Key(BrowseAction::RerunFailed));
    assert_eq!(kinds(&acts), vec!["exit"]);
    assert_eq!(l.phase, Phase::Running);
    assert_eq!(l.rerun_filter, Some(vec!["b".to_string()]));
    assert!(l.trigger_paths.is_none());
    // The filter does not survive the next completed run.
    l.handle(LoopEvent::Completed(vec![result("b", true)]));
    assert!(l.rerun_filter.is_none());
    assert_eq!(l.last_failed_steps, Some(Vec::new()));
}

#[test]
fn run_until_exits_on_stop_signal() {
    let mut l = WatchLoop::new("/p".into(), false, true);
    let acts = l.handle(LoopEvent::Stop);
    assert_eq!(kinds(&acts), vec!["shutdown"]);
    assert_eq!(l.phase, Phase::Done);
    // Nothing happens after the loop ended.
    assert!(l.handle(LoopEvent::FileChange(vec!["/p/a.rs".into()])).is_empty());
    assert_eq!(l.phase, Phase::Done);
}

#[test]
fn failing_run_spawns_hook_and_file_change_aborts_it() {
    let mut l = WatchLoop::new("/p".into(), false, true);
    let acts = l.handle(LoopEvent::Completed(vec![result("a", false)]));
    assert_eq!(kinds(&acts), vec!["log", "spawn"]);
    match &acts[1] {
        LoopAction::SpawnHook(text) => assert_eq!(text, "=== a (exit: 1) ===\nboom\n\n"),
        _ => unreachable!(),
    }
    assert!(l.hook_running);
    assert_eq!(l.phase, Phase::Idle);
    let acts = l.handle(LoopEvent::FileChange(vec!["/p/src/x.rs".into(), "/q/y.rs".into()]));
    assert_eq!(kinds(&acts), vec!["abort", "drain", "trigger"]);
    assert!(!l.hook_running);
    assert_eq!(l.phase, Phase::Running);
    assert_eq!(l.trigger_paths, Some(vec!["src/x.rs".to_string(), "/q/y.rs".to_string()]));
}

#[test]
fn passing_run_spawns_no_hook() {
    let mut l = WatchLoop::new("/p".into(), false, true);
    let acts = l.handle(LoopEvent::Completed(vec![result("a", true)]));
    assert_eq!(kinds(&acts), vec!["log"]);
    assert!(!l.hook_running);
}

#[test]
fn file_change_during_run_cancels_it() {
    let mut l = WatchLoop::new("/p".into(), true, false);
    let acts = l.handle(LoopEvent::FileChange(vec!["/p/a.rs".into()]));
    assert_eq!(kinds(&acts), vec!["drain", "cancelled", "trigger"]);
    assert_eq!(l.phase, Phase::Running);
    assert_eq!(l.trigger_paths, Some(vec!["a.rs".to_string()]));
}

#[test]
fn hook_output_reaches_the_display() {
    let mut l = WatchLoop::new("/p".into(), true, true);
    l.handle(LoopEvent::Completed(vec![result("a", false)]));
    assert!(l.hook_running);
    let acts = l.handle(LoopEvent::HookDone(Some("try this".into())));
    assert_eq!(kinds(&acts), vec!["hook-output"]);
    assert!(!l.hook_running);
    assert_eq!(l.phase, Phase::Browsing);
    // A second settle without a hook does nothing.
    assert!(l.handle(LoopEvent::HookDone(None)).is_empty());
}

#[test]
fn browse_keys_drive_the_loop() {
    let mut l = WatchLoop::new("/p".into(), true, true);
    l.handle(LoopEvent::Completed(vec![result("a", false)]));
    assert_eq!(kinds(&l.handle(LoopEvent::Key(BrowseAction::Noop))), Vec::<&str>::new());
    assert_eq!(kinds(&l.handle(LoopEvent::Key(BrowseAction::Redraw))), vec!["redraw"]);
    let acts = l.handle(LoopEvent::Key(BrowseAction::RerunCursor("a".into())));
    assert_eq!(kinds(&acts), vec!["abort+notify", "exit"]);
    assert_eq!(l.rerun_filter, Some(vec!["a".to_string()]));
    l.handle(LoopEvent::Completed(vec![result("a", true)]));
    let acts = l.handle(LoopEvent::Key(BrowseAction::Rerun));
    assert_eq!(kinds(&acts), vec!["exit"]);
    assert!(l.rerun_filter.is_none());
    l.handle(LoopEvent::Completed(vec![]));
    let acts = l.handle(LoopEvent::Key(BrowseAction::Quit));
    assert_eq!(kinds(&acts), vec!["exit", "shutdown"]);
    assert_eq!(l.phase, Phase::Done);
}

#[test]
fn watcher_and_key_reader_deaths_end_the_loop() {
    let mut l = WatchLoop::new("/p".into(), false, false);
    let acts = l.handle(LoopEvent::WatcherDied);
    assert_eq!(kinds(&acts), vec!["die"]);
    match &acts[0] {
        LoopAction::Exit(msg) => {
            assert_eq!(msg, "baraddur: file watcher stopped unexpectedly. exiting.")
        }
        _ => unreachable!(),
    }
    let mut l = WatchLoop::new("/p".into(), true, false);
    l.handle(LoopEvent::Completed(vec![]));
    let acts = l.handle(LoopEvent::KeyReaderDied);
    assert_eq!(kinds(&acts), vec!["exit", "die"]);
    assert_eq!(l.phase, Phase::Done);
}
