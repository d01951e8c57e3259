use baraddur::output::diagnostic::Diagnostic;
use baraddur::output::style::should_color;
use baraddur::output::{display_kind, interactive, DisplayConfig, DisplayKind, OutputFormat};
use baraddur::output::display::{
    clip_to_viewport, editor_argv, plain_banner, format_trigger_suffix, format_truncated_output, short_diagnostic,
    visual_rows_for,
    BrowseLine, DividerColor, EditorRequest, PlainDisplay, StepStatus, TtyDisplay,
};
use baraddur::output::style::Theme;
use baraddur::output::{BrowseAction, Key, Verbosity};
use baraddur::pipeline::StepResult;
use std::time::Duration;

fn result(name: &str, success: bool, code: Option<i32>, stdout: &str, stderr: &str) -> StepResult {
    StepResult {
        name: name.into(),
        success,
        exit_code: code,
        stdout: stdout.into(),
        stderr: stderr.into(),
        duration: Duration::from_millis(1500),
        stdout_truncated: false,
        stderr_truncated: false,
    }
}

fn names(v: &[&str]) -> Vec<String> {
    v.iter().map(|s| s.to_string()).collect()
}

// ── Pure helpers ────────────────────────────────────────────────────────────

#[test]
fn truncated_output_keeps_short_output_whole() {
    assert_eq!(format_truncated_output("a\nb\n", ""), "  a\n  b\n");
    assert_eq!(format_truncated_output("out", "err"), "  out\n  err\n");
    assert_eq!(format_truncated_output("out\n", "err\n"), "  out\n  err\n");
    assert_eq!(format_truncated_output("", "only err"), "  only err\n");
    assert_eq!(format_truncated_output("", ""), "");
}

#[test]
fn truncated_output_elides_the_middle_of_long_output() {
    let text: String = (1..=60).map(|i| format!("line{i}\n")).collect();
    let out = format_truncated_output(&text, "");
    let lines: Vec<&str> = out.lines().collect();
    assert_eq!(lines.len(), 51);
    assert_eq!(lines[0], "  line1");
    assert_eq!(lines[24], "  line25");
    assert_eq!(lines[25], "  ... [10 lines elided — see .baraddur/last-run.log] ...");
    assert_eq!(lines[26], "  line36");
    assert_eq!(lines[50], "  line60");
}

#[test]
fn truncated_output_at_exactly_fifty_lines_is_whole() {
    let text: String = (1..=50).map(|i| format!("l{i}\n")).collect();
    assert_eq!(format_truncated_output(&text, "").lines().count(), 50);
}

#[test]
fn short_diagnostic_cases() {
    assert_eq!(short_diagnostic(&result("s", true, Some(0), "x", "")), "");
    assert_eq!(short_diagnostic(&result("s", false, None, "", "")), "command not found");
    assert_eq!(short_diagnostic(&result("s", false, Some(1), "  \n\n", "")), "");
    assert_eq!(short_diagnostic(&result("s", false, Some(1), "\n  boom  \n", "")), "  boom  ");
    assert_eq!(short_diagnostic(&result("s", false, Some(1), "a\n", "b\nc\n")), "3 lines");
    let long = "x".repeat(45);
    let expected = format!("{}…", "x".repeat(40));
    assert_eq!(short_diagnostic(&result("s", false, Some(2), &long, "")), expected);
    let exact = "y".repeat(40);
    assert_eq!(short_diagnostic(&result("s", false, Some(2), &exact, "")), exact);
}

#[test]
fn trigger_suffix_cases() {
    let one = names(&["lib/foo.ex"]);
    let three = names(&["a", "b", "c"]);
    assert_eq!(format_trigger_suffix(Some(&one)), "  ·  lib/foo.ex");
    assert_eq!(format_trigger_suffix(Some(&three)), "  ·  3 files");
    assert_eq!(format_trigger_suffix(Some(&[])), "  ·  0 files");
    assert_eq!(format_trigger_suffix(None), "");
}

#[test]
fn visual_rows_cases() {
    assert_eq!(visual_rows_for("", 80), 1);
    assert_eq!(visual_rows_for("abc", 0), 1);
    assert_eq!(visual_rows_for("abcd", 2), 2);
    assert_eq!(visual_rows_for("abcde", 2), 3);
    assert_eq!(visual_rows_for("\x1b[31mabcd\x1b[0m", 4), 1);
}

// ── Interactive display state ───────────────────────────────────────────────

fn key(c: char) -> Key {
    Key::Char(c)
}

#[test]
fn handle_key_c_returns_rerun_cursor_for_step_under_cursor() {
    let mut d = TtyDisplay::new(Theme::new(false), Verbosity::Quiet, true);
    d.run_started(&names(&["alpha", "beta", "gamma"]));
    d.cursor = 1;
    let action = d.handle_key(key('c'));
    match action {
        BrowseAction::RerunCursor(name) => assert_eq!(name, "beta"),
        other => panic!("expected RerunCursor(\"beta\"), got {other:?}"),
    }
}

#[test]
fn diagnostic_navigation_and_editor_spawn() {
    let mut d = TtyDisplay::new(Theme::new(false), Verbosity::Quiet, true);
    d.root = "/tmp/repo".to_string();
    d.run_started(&names(&["step"]));
    d.parsed_diagnostics[0] = vec![
        Diagnostic { path: "a.rs".into(), line: 1, col: Some(1) },
        Diagnostic { path: "b.rs".into(), line: 2, col: Some(2) },
        Diagnostic { path: "c.rs".into(), line: 3, col: None },
    ];

    let mut recorded: Vec<EditorRequest> = Vec::new();
    let mut press = |d: &mut TtyDisplay, c: char| {
        d.handle_key(key(c));
        if let Some(r) = d.editor_request.take() {
            recorded.push(r);
        }
    };
    press(&mut d, 'e');
    press(&mut d, 'n');
    press(&mut d, 'e');
    press(&mut d, 'n');
    press(&mut d, 'e');
    press(&mut d, 'p');
    press(&mut d, 'e');

    assert_eq!(recorded.len(), 4);
    assert_eq!(recorded[0], EditorRequest { path: "/tmp/repo/a.rs".into(), line: 1, col: Some(1) });
    assert_eq!(recorded[1], EditorRequest { path: "/tmp/repo/b.rs".into(), line: 2, col: Some(2) });
    assert_eq!(recorded[2], EditorRequest { path: "/tmp/repo/c.rs".into(), line: 3, col: None });
    assert_eq!(recorded[3], EditorRequest { path: "/tmp/repo/b.rs".into(), line: 2, col: Some(2) });
}

#[test]
fn diagnostic_navigation_wraps_both_ways() {
    let mut d = TtyDisplay::new(Theme::new(false), Verbosity::Normal, true);
    d.run_started(&names(&["step"]));
    d.parsed_diagnostics[0] = vec![
        Diagnostic { path: "/abs/a.rs".into(), line: 1, col: None },
        Diagnostic { path: "b.rs".into(), line: 2, col: None },
    ];
    d.handle_key(key('p'));
    assert_eq!(d.current_diagnostic[0], 1);
    d.handle_key(key('n'));
    assert_eq!(d.current_diagnostic[0], 0);
    d.handle_key(key('e'));
    assert_eq!(d.editor_request.take().unwrap().path, "/abs/a.rs");
}

#[test]
fn help_modal_opens_on_question_mark_and_dismisses_on_any_key() {
    let mut d = TtyDisplay::new(Theme::new(false), Verbosity::Quiet, true);
    d.run_started(&names(&["step"]));
    assert!(!d.help_modal_active);
    d.handle_key(key('?'));
    assert!(d.help_modal_active, "? should open the modal");
    let action = d.handle_key(key('q'));
    assert!(matches!(action, BrowseAction::Redraw));
    assert!(!d.help_modal_active, "any key should dismiss the modal");
}

#[test]
fn editor_key_with_no_diagnostics_is_no_op() {
    let mut d = TtyDisplay::new(Theme::new(false), Verbosity::Quiet, true);
    d.run_started(&names(&["step"]));
    d.handle_key(key('e'));
    assert!(d.editor_request.is_none(), "editor should not be invoked");
    assert_eq!(d.transient_message.as_deref(), Some("no diagnostics on this step"));
}

#[test]
fn cursor_moves_and_clamps() {
    let mut d = TtyDisplay::new(Theme::new(true), Verbosity::Normal, false);
    d.run_started(&names(&["a", "b", "c"]));
    assert!(matches!(d.handle_key(Key::Up), BrowseAction::Redraw));
    assert_eq!(d.cursor, 0);
    d.handle_key(key('j'));
    d.handle_key(Key::Down);
    d.handle_key(key('j'));
    assert_eq!(d.cursor, 2);
    d.handle_key(key('k'));
    assert_eq!(d.cursor, 1);
    assert!(matches!(d.handle_key(key('g')), BrowseAction::Noop));
    assert_eq!(d.cursor, 1);
    assert!(matches!(d.handle_key(key('g')), BrowseAction::Redraw));
    assert_eq!(d.cursor, 0);
    d.handle_key(key('G'));
    assert_eq!(d.cursor, 2);
    // A `g` broken by another key does not count as `gg`.
    d.handle_key(key('g'));
    d.handle_key(key('x'));
    d.handle_key(key('g'));
    assert_eq!(d.cursor, 2);
}

#[test]
fn toggles_expand_one_or_all() {
    let mut d = TtyDisplay::new(Theme::new(false), Verbosity::Normal, false);
    d.run_started(&names(&["a", "b"]));
    d.handle_key(Key::Enter);
    assert_eq!(d.expanded, vec![true, false]);
    d.handle_key(key('o'));
    assert_eq!(d.expanded, vec![false, false]);
    d.handle_key(key('O'));
    assert!(d.all_expanded);
    assert_eq!(d.expanded, vec![true, true]);
    d.handle_key(key('O'));
    assert_eq!(d.expanded, vec![false, false]);
}

#[test]
fn rerun_keys() {
    let mut d = TtyDisplay::new(Theme::new(false), Verbosity::Normal, false);
    d.run_started(&names(&["a", "b"]));
    assert!(matches!(d.handle_key(key('r')), BrowseAction::Rerun));
    // No failure yet: `f` leaves a message instead.
    assert!(matches!(d.handle_key(key('f')), BrowseAction::Redraw));
    assert_eq!(d.transient_message.as_deref(), Some("no failures to re-run"));
    // Any other key clears the message and still redraws.
    assert!(matches!(d.handle_key(Key::Other), BrowseAction::Redraw));
    assert!(d.transient_message.is_none());
    d.step_finished(&result("b", false, Some(1), "err", ""));
    assert!(matches!(d.handle_key(key('f')), BrowseAction::RerunFailed));
    assert!(matches!(d.handle_key(key('q')), BrowseAction::Quit));
}

#[test]
fn empty_step_list_only_quits() {
    let mut d = TtyDisplay::new(Theme::new(false), Verbosity::Normal, false);
    d.run_started(&[]);
    assert!(matches!(d.handle_key(key('j')), BrowseAction::Noop));
    assert!(matches!(d.handle_key(key('q')), BrowseAction::Quit));
}

#[test]
fn statuses_follow_the_run() {
    let mut d = TtyDisplay::new(Theme::new(false), Verbosity::Normal, false);
    d.set_trigger(&names(&["x.rs"]));
    let trigger = d.run_started(&names(&["a", "b", "c"]));
    assert_eq!(trigger, Some(names(&["x.rs"])));
    assert!(d.trigger_paths.is_none());
    assert_eq!(d.run_count, 1);
    assert_eq!(d.divider_color(), DividerColor::Dim);
    d.step_running("a");
    assert!(d.has_running);
    assert!(matches!(d.statuses[0], StepStatus::Running));
    assert!(d.tick());
    assert_eq!(d.spinner_frame, 1);
    d.step_finished(&result("a", false, Some(1), "only line", ""));
    assert!(!d.has_running);
    match &d.statuses[0] {
        StepStatus::Failed(dur, diag) => {
            assert_eq!(*dur, Duration::from_millis(1500));
            assert_eq!(diag, "only line");
        }
        other => panic!("unexpected status {other:?}"),
    }
    assert!(!d.tick());
    d.steps_skipped(&names(&["b", "c"]));
    assert!(matches!(d.statuses[2], StepStatus::Skipped));
    assert_eq!(d.divider_color(), DividerColor::Red);
}

#[test]
fn run_finished_prepares_browse_mode() {
    let mut d = TtyDisplay::new(Theme::new(false), Verbosity::Normal, false);
    d.run_started(&names(&["fmt", "test", "lint"]));
    let results = vec![
        result("fmt", true, Some(0), "ok\n", ""),
        result("test", false, Some(101), "", "  --> src/lib.rs:3:7\n"),
    ];
    let tally = d.run_finished(&results);
    assert_eq!(tally.failed, 1);
    assert_eq!(tally.passed, 1);
    assert_eq!(tally.skipped, 1);
    assert!(tally.show_footer);
    assert_eq!(d.cursor, 1);
    assert!(d.all_expanded);
    assert_eq!(d.expanded, vec![false, true, false]);
    assert_eq!(d.step_outputs[0], "  ok\n");
    assert_eq!(d.step_outputs[1], "    --> src/lib.rs:3:7\n");
    assert_eq!(d.step_outputs[2], "");
    assert_eq!(
        d.parsed_diagnostics[1],
        vec![Diagnostic { path: "src/lib.rs".into(), line: 3, col: Some(7) }]
    );
}

#[test]
fn run_finished_reports_no_matching_steps() {
    let mut d = TtyDisplay::new(Theme::new(false), Verbosity::Normal, false);
    d.set_trigger(&names(&["a.md"]));
    d.run_started(&names(&["fmt"]));
    d.run_finished(&[]);
    assert_eq!(d.transient_message.as_deref(), Some("no steps match changed path: a.md"));

    d.set_trigger(&names(&["a.md", "b.md"]));
    d.run_started(&names(&["fmt"]));
    d.run_finished(&[]);
    assert_eq!(d.transient_message.as_deref(), Some("no steps match 2 changed paths"));

    let mut quiet = TtyDisplay::new(Theme::new(false), Verbosity::Quiet, false);
    quiet.set_trigger(&names(&["a.md"]));
    quiet.run_started(&names(&["fmt"]));
    let tally = quiet.run_finished(&[]);
    assert!(!tally.show_footer);
    assert!(quiet.transient_message.is_none());
}

#[test]
fn scroll_keeps_cursor_visible() {
    let mut d = TtyDisplay::new(Theme::new(false), Verbosity::Normal, false);
    d.adjust_scroll(30, 2, 10, 100);
    assert_eq!(d.browse_scroll, 22);
    d.adjust_scroll(5, 1, 10, 100);
    assert_eq!(d.browse_scroll, 5);
    d.adjust_scroll(95, 1, 10, 20);
    assert_eq!(d.browse_scroll, 10);
}

#[test]
fn hook_and_browse_flags() {
    let mut d = TtyDisplay::new(Theme::new(false), Verbosity::Normal, false);
    d.hook_started();
    assert!(d.hook_running);
    d.hook_output("advice");
    assert!(!d.hook_running);
    assert_eq!(d.hook_output_text, "advice");
    d.hook_started();
    d.hook_finished();
    assert!(!d.hook_running);
    d.enter_browse_mode();
    assert!(d.browse_active);
    d.exit_browse_mode();
    assert!(!d.browse_active);
}

#[test]
fn browse_layout_lists_rows_outputs_and_footer() {
    let mut d = TtyDisplay::new(Theme::new(false), Verbosity::Normal, false);
    d.run_started(&names(&["fmt", "test", "lint"]));
    let results = vec![
        result("fmt", true, Some(0), "ok\n", ""),
        result("test", false, Some(101), "", "  --> src/lib.rs:3:7\nnote\n"),
    ];
    d.run_finished(&results);
    d.enter_browse_mode();
    let layout = d.browse_layout(true, true);
    assert_eq!(layout.len(), 10);
    assert!(matches!(layout[0], BrowseLine::Divider));
    assert!(matches!(layout[1], BrowseLine::Step(0)));
    assert!(matches!(layout[2], BrowseLine::Step(1)));
    match &layout[3] {
        BrowseLine::Output { step, text, raw, diagnostic, current } => {
            assert_eq!(*step, 1);
            assert_eq!(text, "    --> src/lib.rs:3:7");
            assert_eq!(raw, "  --> src/lib.rs:3:7");
            assert_eq!(*diagnostic, Some(0));
            assert!(*current);
        }
        other => panic!("unexpected line {other:?}"),
    }
    match &layout[4] {
        BrowseLine::Output { text, raw, diagnostic, current, .. } => {
            assert_eq!(text, "  note");
            assert_eq!(raw, "note");
            assert_eq!(*diagnostic, None);
            assert!(!*current);
        }
        other => panic!("unexpected line {other:?}"),
    }
    assert!(matches!(layout[5], BrowseLine::Step(2)));
    assert!(matches!(layout[6], BrowseLine::Spacer));
    assert!(matches!(layout[7], BrowseLine::Summary));
    assert!(matches!(layout[8], BrowseLine::Spacer));
    assert!(matches!(layout[9], BrowseLine::HelpBar));

    d.exit_browse_mode();
    let plain = d.browse_layout(false, false);
    assert_eq!(plain.len(), 5);
}

// ── Plain display ───────────────────────────────────────────────────────────

#[test]
fn plain_display_lines_and_summary() {
    let mut d = PlainDisplay::new(Theme::new(false), Verbosity::Normal);
    assert_eq!(d.run_started().as_deref(), Some("run #1 started"));
    d.set_trigger(&names(&["src/a.rs"]));
    assert_eq!(d.run_started().as_deref(), Some("run #2 started  ·  src/a.rs"));
    assert!(d.last_run_triggered);
    let s = d.run_finished(&[]);
    assert!(s.no_match);
    assert_eq!((s.failed, s.passed), (0, 0));
    assert!(s.show_summary);
    assert!(!s.show_passing_output);

    let mut q = PlainDisplay::new(Theme::new(false), Verbosity::Quiet);
    assert!(q.run_started().is_none());
    assert!(!q.shows_progress());
    assert!(!q.shows_step_finished(&result("a", true, Some(0), "", "")));
    assert!(q.shows_step_finished(&result("a", false, Some(1), "", "")));
    let s = q.run_finished(&[result("a", true, Some(0), "", "")]);
    assert!(!s.show_summary);
    let s = q.run_finished(&[result("a", false, Some(1), "", "")]);
    assert!(s.show_summary);

    let v = PlainDisplay::new(Theme::new(false), Verbosity::Verbose);
    assert!(v.run_finished(&[]).show_passing_output);
}

#[test]
fn viewport_clipping() {
    // Everything fits.
    assert_eq!(clip_to_viewport(&[1, 1], 0, 10), (0, 2, 2));
    // The last printed line may overflow the viewport.
    assert_eq!(clip_to_viewport(&[1, 1, 2, 1, 1], 0, 3), (0, 3, 4));
    // Scrolled by one row: the first line is hidden.
    assert_eq!(clip_to_viewport(&[1, 1, 2, 1, 1], 1, 3), (1, 3, 3));
    // A line partly above the offset is hidden whole.
    assert_eq!(clip_to_viewport(&[1, 3, 1], 3, 10), (2, 3, 1));
    // No room: nothing printed.
    assert_eq!(clip_to_viewport(&[1, 1], 0, 0), (0, 0, 0));
}

#[test]
fn display_selection_rules() {
    assert!(interactive(OutputFormat::Auto, false, true));
    assert!(!interactive(OutputFormat::Auto, true, true));
    assert!(!interactive(OutputFormat::Auto, false, false));
    assert!(!interactive(OutputFormat::Json, false, true));
    let dc = |format, is_tty| DisplayConfig { is_tty, no_clear: false, verbosity: Verbosity::Normal, format };
    assert_eq!(display_kind(&dc(OutputFormat::Json, true)), DisplayKind::Json);
    assert_eq!(display_kind(&dc(OutputFormat::Auto, true)), DisplayKind::Tty);
    assert_eq!(display_kind(&dc(OutputFormat::Auto, false)), DisplayKind::Plain);
    assert!(should_color(true, false));
    assert!(!should_color(true, true));
    assert!(!should_color(false, false));
}

#[test]
fn plain_banner_text() {
    assert_eq!(
        plain_banner("/p", "/p/.baraddur.toml", None),
        "baraddur: watching /p\n          (config: /p/.baraddur.toml)"
    );
    assert_eq!(
        plain_banner("/p", "/c.toml", Some("quick")),
        "baraddur: watching /p\n          (config: /c.toml)\n          (profile: quick)"
    );
}

#[test]
fn editor_command_resolution() {
    assert_eq!(
        editor_argv(Some("code --wait"), Some("nano"), "/r/a.rs", 12),
        Some(("code".to_string(), vec!["--wait".to_string(), "+12".to_string(), "/r/a.rs".to_string()]))
    );
    assert_eq!(
        editor_argv(None, Some("nano"), "b.rs", 3),
        Some(("nano".to_string(), vec!["+3".to_string(), "b.rs".to_string()]))
    );
    assert_eq!(
        editor_argv(None, None, "c.rs", 1),
        Some(("vi".to_string(), vec!["+1".to_string(), "c.rs".to_string()]))
    );
    // An unbalanced quote keeps the setting as one word.
    assert_eq!(
        editor_argv(Some("my'ed"), None, "d.rs", 2),
        Some(("my'ed".to_string(), vec!["+2".to_string(), "d.rs".to_string()]))
    );
    assert_eq!(editor_argv(Some(""), None, "e.rs", 2), None);
}

#[test]
fn f_key_follows_latest_status_of_each_step() {
    let mut d = TtyDisplay::new(Theme::new(false), Verbosity::Quiet, true);
    d.run_started(&names(&["a", "b"]));
    assert!(matches!(d.handle_key(key('f')), BrowseAction::Redraw));
    assert_eq!(d.transient_message.as_deref(), Some("no failures to re-run"));

    d.step_finished(&result("a", false, Some(1), "", ""));
    assert!(matches!(d.handle_key(key('f')), BrowseAction::RerunFailed));

    d.step_finished(&result("a", true, Some(0), "", ""));
    assert!(matches!(d.handle_key(key('f')), BrowseAction::Redraw));
    assert_eq!(d.transient_message.as_deref(), Some("no failures to re-run"));

    d.run_started(&names(&["a", "b"]));
    d.step_finished(&result("b", false, Some(1), "", ""));
    d.steps_skipped(&names(&["a"]));
    assert!(matches!(d.handle_key(key('f')), BrowseAction::RerunFailed));
}
