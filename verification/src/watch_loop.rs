//! The decisions of the watch loop.
//!
//! The loop runs the pipeline, then idles (or, on a terminal, browses the
//! results) until a file changes, a key asks for a rerun, or the user
//! stops it. Its outside work (running the pipeline, waiting on channels,
//! spawning and aborting the `[on_failure]` hook, drawing) is done by the
//! caller; this module turns each event into the next state and the
//! actions to perform, in order.
use vstd::prelude::*;

use crate::config::schema::{copy_strings, strings_view};
use crate::output::BrowseAction;
use crate::pipeline::hook::{combine_failed_output, combined_failures};
use crate::pipeline::step::{StepResult, StepResultView, results_view};
use crate::watcher::relative_to;
use crate::{all_passed, rel_paths, run_log, run_log_content, run_passed};
use crate::text::push_str;

verus! {

/// Where the loop is.
#[derive(Debug, Clone, Copy, PartialEq, Eq, Structural)]
pub enum Phase {
    /// The pipeline is running.
    Running,
    /// A run completed; waiting for a change (no terminal).
    Idle,
    /// A run completed; browsing its results on a terminal.
    Browsing,
    /// The loop has ended.
    Done,
}

/// What happened.
pub enum LoopEvent {
    /// The pipeline run completed with these results.
    Completed(Vec<StepResult>),
    /// The watcher reported changed paths.
    FileChange(Vec<String>),
    /// The stop signal (Ctrl+C) arrived.
    Stop,
    /// The watcher's channel closed.
    WatcherDied,
    /// A key press in browse mode, as the display interpreted it.
    Key(BrowseAction),
    /// The keyboard reader's channel closed.
    KeyReaderDied,
    /// The `[on_failure]` hook settled, with its output if it produced any.
    HookDone(Option<String>),
}

/// What the caller must do, in order.
#[derive(Debug)]
pub enum LoopAction {
    /// Write this text to `.baraddur/last-run.log`.
    WriteRunLog(String),
    /// Abort the in-flight hook; tell the display it finished when asked.
    AbortHook { notify_display: bool },
    /// Spawn the hook with this text on its stdin and tell the display.
    SpawnHook(String),
    /// Tell the display the run was cancelled.
    RunCancelled,
    /// Tell the display which paths triggered the next run.
    SetTrigger(Vec<String>),
    /// Discard watcher batches that queued up meanwhile.
    DrainWatcher,
    /// Discard key presses that queued up during the run.
    DrainKeys,
    EnterBrowse,
    ExitBrowse,
    BrowseRedraw,
    /// Show the hook's output.
    HookOutput(String),
    /// Tell the display the hook settled without output.
    HookFinished,
    /// Shut down cleanly.
    Shutdown,
    /// Print this message and end the loop.
    Exit(String),
}

pub enum LoopActionView {
    WriteRunLog(Seq<char>),
    AbortHook { notify_display: bool },
    SpawnHook(Seq<char>),
    RunCancelled,
    SetTrigger(Seq<Seq<char>>),
    DrainWatcher,
    DrainKeys,
    EnterBrowse,
    ExitBrowse,
    BrowseRedraw,
    HookOutput(Seq<char>),
    HookFinished,
    Shutdown,
    Exit(Seq<char>),
}

impl View for LoopAction {
    type V = LoopActionView;

    open spec fn view(&self) -> LoopActionView {
        match self {
            LoopAction::WriteRunLog(s) => LoopActionView::WriteRunLog(s@),
            LoopAction::AbortHook { notify_display } => LoopActionView::AbortHook {
                notify_display: *notify_display,
            },
            LoopAction::SpawnHook(s) => LoopActionView::SpawnHook(s@),
            LoopAction::RunCancelled => LoopActionView::RunCancelled,
            LoopAction::SetTrigger(v) => LoopActionView::SetTrigger(strings_view(v@)),
            LoopAction::DrainWatcher => LoopActionView::DrainWatcher,
            LoopAction::DrainKeys => LoopActionView::DrainKeys,
            LoopAction::EnterBrowse => LoopActionView::EnterBrowse,
            LoopAction::ExitBrowse => LoopActionView::ExitBrowse,
            LoopAction::BrowseRedraw => LoopActionView::BrowseRedraw,
            LoopAction::HookOutput(s) => LoopActionView::HookOutput(s@),
            LoopAction::HookFinished => LoopActionView::HookFinished,
            LoopAction::Shutdown => LoopActionView::Shutdown,
            LoopAction::Exit(s) => LoopActionView::Exit(s@),
        }
    }
}

pub open spec fn actions_view(v: Seq<LoopAction>) -> Seq<LoopActionView> {
    v.map_values(|a: LoopAction| a@)
}

/// The loop's state between events.
pub struct WatchLoop {
    pub phase: Phase,
    /// Paths (relative to the root) that triggered the next run; `None` for
    /// a run that is not the answer to a change.
    pub trigger_paths: Option<Vec<String>>,
    /// Names of the steps that failed in the last completed run.
    pub last_failed_steps: Option<Vec<String>>,
    /// When `Some`, the next run runs only these steps.
    pub rerun_filter: Option<Vec<String>>,
    /// Whether an `[on_failure]` hook task is in flight.
    pub hook_running: bool,
    /// Whether the output is a terminal (browse mode after each run).
    pub is_tty: bool,
    /// Whether `[on_failure]` is enabled.
    pub hook_enabled: bool,
    /// The watch root, against which changed paths are made relative.
    pub root: String,
}

pub struct WatchLoopView {
    pub phase: Phase,
    pub trigger_paths: Option<Seq<Seq<char>>>,
    pub last_failed_steps: Option<Seq<Seq<char>>>,
    pub rerun_filter: Option<Seq<Seq<char>>>,
    pub hook_running: bool,
    pub is_tty: bool,
    pub hook_enabled: bool,
    pub root: Seq<char>,
}

pub open spec fn opt_strings(o: Option<Vec<String>>) -> Option<Seq<Seq<char>>> {
    match o {
        Some(v) => Some(strings_view(v@)),
        None => None,
    }
}

impl View for WatchLoop {
    type V = WatchLoopView;

    open spec fn view(&self) -> WatchLoopView {
        WatchLoopView {
            phase: self.phase,
            trigger_paths: opt_strings(self.trigger_paths),
            last_failed_steps: opt_strings(self.last_failed_steps),
            rerun_filter: opt_strings(self.rerun_filter),
            hook_running: self.hook_running,
            is_tty: self.is_tty,
            hook_enabled: self.hook_enabled,
            root: self.root@,
        }
    }
}

// ── Specification ───────────────────────────────────────────────────────────

pub open spec fn watcher_died_message() -> Seq<char> {
    "baraddur: file watcher stopped unexpectedly. exiting."@
}

pub open spec fn key_reader_died_message() -> Seq<char> {
    "baraddur: keyboard reader stopped unexpectedly. exiting."@
}

/// Names of the failed steps, in order.
pub open spec fn failed_names(rs: Seq<StepResultView>) -> Seq<Seq<char>>
    decreases rs.len(),
{
    if rs.len() == 0 {
        seq![]
    } else {
        failed_names(rs.drop_last()) + if rs.last().success {
            seq![]
        } else {
            seq![rs.last().name]
        }
    }
}

pub open spec fn any_failed(rs: Seq<StepResultView>) -> bool {
    exists|i: int| 0 <= i < rs.len() && !(#[trigger] rs[i].success)
}

/// The changed paths relative to the root.
pub open spec fn rel_view(paths: Seq<Seq<char>>, root: Seq<char>) -> Seq<Seq<char>> {
    paths.map_values(|p: Seq<char>| relative_to(p, root))
}

/// An abort of the in-flight hook, when there is one.
pub open spec fn abort_if(s: WatchLoopView, notify_display: bool) -> Seq<LoopActionView> {
    if s.hook_running {
        seq![LoopActionView::AbortHook { notify_display }]
    } else {
        seq![]
    }
}

/// The state after leaving for a new run or for good: no hook in flight.
pub open spec fn leave(s: WatchLoopView, phase: Phase) -> WatchLoopView {
    WatchLoopView { phase, hook_running: false, ..s }
}

/// A rerun asked for from browse mode, with this step filter.
pub open spec fn rerun(s: WatchLoopView, filter: Option<Seq<Seq<char>>>) -> (
    WatchLoopView,
    Seq<LoopActionView>,
) {
    (
        WatchLoopView { trigger_paths: None, rerun_filter: filter, ..leave(s, Phase::Running) },
        abort_if(s, true) + seq![LoopActionView::ExitBrowse],
    )
}

/// What a settled hook does to the state and the display.
pub open spec fn hook_settled(s: WatchLoopView, out: Option<String>) -> (
    WatchLoopView,
    Seq<LoopActionView>,
) {
    if s.hook_running {
        (
            WatchLoopView { hook_running: false, ..s },
            match out {
                Some(t) => seq![LoopActionView::HookOutput(t@)],
                None => seq![LoopActionView::HookFinished],
            },
        )
    } else {
        (s, seq![])
    }
}

/// The next state and the actions for event `e` in state `s`. Events that
/// cannot arrive in a phase change nothing.
pub open spec fn transition(s: WatchLoopView, e: LoopEvent) -> (WatchLoopView, Seq<LoopActionView>) {
    match s.phase {
        Phase::Running => match e {
            LoopEvent::Completed(rs) => {
                let rv = results_view(rs@);
                let spawn = s.hook_enabled && any_failed(rv);
                (
                    WatchLoopView {
                        phase: if s.is_tty {
                            Phase::Browsing
                        } else {
                            Phase::Idle
                        },
                        last_failed_steps: Some(failed_names(rv)),
                        rerun_filter: None,
                        hook_running: spawn,
                        ..s
                    },
                    seq![LoopActionView::WriteRunLog(run_log(rv))] + abort_if(s, true) + (if spawn {
                        seq![LoopActionView::SpawnHook(combined_failures(rv))]
                    } else {
                        seq![]
                    }) + (if s.is_tty {
                        seq![LoopActionView::DrainKeys, LoopActionView::EnterBrowse]
                    } else {
                        seq![]
                    }),
                )
            },
            LoopEvent::FileChange(ps) => {
                let rel = rel_view(strings_view(ps@), s.root);
                (
                    WatchLoopView { trigger_paths: Some(rel), ..leave(s, Phase::Running) },
                    seq![LoopActionView::DrainWatcher] + abort_if(s, true) + seq![
                        LoopActionView::RunCancelled,
                        LoopActionView::SetTrigger(rel),
                    ],
                )
            },
            LoopEvent::Stop => (
                leave(s, Phase::Done),
                abort_if(s, true) + seq![LoopActionView::Shutdown],
            ),
            LoopEvent::WatcherDied => (
                WatchLoopView { phase: Phase::Done, ..s },
                seq![LoopActionView::Exit(watcher_died_message())],
            ),
            _ => (s, seq![]),
        },
        Phase::Browsing => match e {
            LoopEvent::Stop => (
                leave(s, Phase::Done),
                abort_if(s, true) + seq![LoopActionView::ExitBrowse, LoopActionView::Shutdown],
            ),
            LoopEvent::FileChange(ps) => {
                let rel = rel_view(strings_view(ps@), s.root);
                (
                    WatchLoopView { trigger_paths: Some(rel), ..leave(s, Phase::Running) },
                    abort_if(s, true) + seq![
                        LoopActionView::ExitBrowse,
                        LoopActionView::DrainWatcher,
                        LoopActionView::SetTrigger(rel),
                    ],
                )
            },
            LoopEvent::WatcherDied => (
                leave(s, Phase::Done),
                abort_if(s, true) + seq![
                    LoopActionView::ExitBrowse,
                    LoopActionView::Exit(watcher_died_message()),
                ],
            ),
            LoopEvent::Key(a) => match a {
                BrowseAction::Noop => (s, seq![]),
                BrowseAction::Redraw => (s, seq![LoopActionView::BrowseRedraw]),
                BrowseAction::Quit => (
                    leave(s, Phase::Done),
                    abort_if(s, true) + seq![LoopActionView::ExitBrowse, LoopActionView::Shutdown],
                ),
                BrowseAction::Rerun => rerun(s, None),
                BrowseAction::RerunFailed => rerun(s, s.last_failed_steps),
                BrowseAction::RerunCursor(name) => rerun(s, Some(seq![name@])),
            },
            LoopEvent::KeyReaderDied => (
                WatchLoopView { phase: Phase::Done, ..s },
                seq![LoopActionView::ExitBrowse, LoopActionView::Exit(key_reader_died_message())],
            ),
            LoopEvent::HookDone(out) => hook_settled(s, out),
            _ => (s, seq![]),
        },
        Phase::Idle => match e {
            LoopEvent::Stop => (
                leave(s, Phase::Done),
                abort_if(s, false) + seq![LoopActionView::Shutdown],
            ),
            LoopEvent::FileChange(ps) => {
                let rel = rel_view(strings_view(ps@), s.root);
                (
                    WatchLoopView { trigger_paths: Some(rel), ..leave(s, Phase::Running) },
                    abort_if(s, false) + seq![
                        LoopActionView::DrainWatcher,
                        LoopActionView::SetTrigger(rel),
                    ],
                )
            },
            LoopEvent::WatcherDied => (
                leave(s, Phase::Done),
                abort_if(s, false) + seq![LoopActionView::Exit(watcher_died_message())],
            ),
            LoopEvent::HookDone(out) => hook_settled(s, out),
            _ => (s, seq![]),
        },
        Phase::Done => (s, seq![]),
    }
}

// ── Laws ────────────────────────────────────────────────────────────────────

proof fn lemma_any_failed(rs: Seq<StepResultView>)
    ensures
        any_failed(rs) == !all_passed(rs),
{
    if !all_passed(rs) {
        let i = choose|i: int| 0 <= i < rs.len() && !(#[trigger] rs[i].success);
        assert(!rs[i].success);
    }
}

/// A run ends with every in-flight hook stopped: whenever the loop leaves
/// idle or browse mode (for a new run or for good), no hook is left
/// running, and one that was running is aborted first.
pub proof fn law_no_hook_survives_leaving(s: WatchLoopView, e: LoopEvent)
    requires
        s.phase == Phase::Idle || s.phase == Phase::Browsing,
        transition(s, e).0.phase == Phase::Running || (transition(s, e).0.phase == Phase::Done
            && !(e is KeyReaderDied)),
    ensures
        !transition(s, e).0.hook_running,
        s.hook_running ==> transition(s, e).1[0] matches LoopActionView::AbortHook { .. },
{
}

/// The failed-step list holds the names of exactly the failed results, in
/// their order, every one of them: the results kept by "did not succeed",
/// each mapped to its name.
pub proof fn law_failed_names_are_the_failed_results(rs: Seq<StepResultView>)
    ensures
        failed_names(rs) == rs.filter(|r: StepResultView| !r.success).map_values(
            |r: StepResultView| r.name,
        ),
    decreases rs.len(),
{
    reveal(Seq::filter);
    if rs.len() == 0 {
        assert(rs.filter(|r: StepResultView| !r.success).map_values(|r: StepResultView| r.name)
            =~= Seq::<Seq<char>>::empty());
    } else {
        law_failed_names_are_the_failed_results(rs.drop_last());
        let sub = rs.drop_last().filter(|r: StepResultView| !r.success);
        if rs.last().success {
            assert(rs.filter(|r: StepResultView| !r.success) == sub);
            assert(failed_names(rs) =~= failed_names(rs.drop_last()));
        } else {
            assert(rs.filter(|r: StepResultView| !r.success) == sub.push(rs.last()));
            assert(sub.push(rs.last()).map_values(|r: StepResultView| r.name) =~= sub.map_values(
                |r: StepResultView| r.name,
            ).push(rs.last().name));
            assert(failed_names(rs) =~= failed_names(rs.drop_last()).push(rs.last().name));
        }
    }
}

/// A completed run resets the step filter, remembers exactly the steps
/// that failed, and starts the hook only when it is enabled and the run
/// failed.
pub proof fn law_completed_run(s: WatchLoopView, rs: Vec<StepResult>)
    requires
        s.phase == Phase::Running,
    ensures
        ({
            let t = transition(s, LoopEvent::Completed(rs)).0;
            &&& t.rerun_filter is None
            &&& t.last_failed_steps == Some(failed_names(results_view(rs@)))
            &&& t.hook_running == (s.hook_enabled && !all_passed(results_view(rs@)))
            &&& t.phase == if s.is_tty { Phase::Browsing } else { Phase::Idle }
        }),
{
    lemma_any_failed(results_view(rs@));
}

/// `f` in browse mode reruns exactly the steps that failed last time; `c`
/// reruns exactly the step under the cursor; `r` reruns everything. None
/// of them carries the previous trigger over.
pub proof fn law_rerun_filters(s: WatchLoopView, name: String)
    requires
        s.phase == Phase::Browsing,
    ensures
        transition(s, LoopEvent::Key(BrowseAction::RerunFailed)).0.rerun_filter
            == s.last_failed_steps,
        transition(s, LoopEvent::Key(BrowseAction::RerunCursor(name))).0.rerun_filter == Some(
            seq![name@],
        ),
        transition(s, LoopEvent::Key(BrowseAction::Rerun)).0.rerun_filter is None,
        transition(s, LoopEvent::Key(BrowseAction::RerunFailed)).0.trigger_paths is None,
        transition(s, LoopEvent::Key(BrowseAction::RerunCursor(name))).0.trigger_paths is None,
        transition(s, LoopEvent::Key(BrowseAction::Rerun)).0.trigger_paths is None,
{
}

/// A file change always starts a new run triggered by the changed paths,
/// made relative to the root, and the filter of a previous `f`/`c` rerun
/// does not survive a completed run.
pub proof fn law_file_change_triggers_run(s: WatchLoopView, ps: Vec<String>)
    requires
        s.phase != Phase::Done,
    ensures
        transition(s, LoopEvent::FileChange(ps)).0.phase == Phase::Running,
        transition(s, LoopEvent::FileChange(ps)).0.trigger_paths == Some(
            rel_view(strings_view(ps@), s.root),
        ),
{
}

/// Once the loop is done, nothing more happens.
pub proof fn law_done_is_final(s: WatchLoopView, e: LoopEvent)
    requires
        s.phase == Phase::Done,
    ensures
        transition(s, e).0 == s,
        transition(s, e).1.len() == 0,
{
}

// ── Executable operations ───────────────────────────────────────────────────

fn push_action(acts: &mut Vec<LoopAction>, a: LoopAction)
    ensures
        actions_view(final(acts)@) == actions_view(old(acts)@).push(a@),
{
    let ghost av = a@;
    acts.push(a);
    assert(actions_view(acts@) =~= actions_view(old(acts)@).push(av));
}

fn push_abort(acts: &mut Vec<LoopAction>, hook_running: bool, notify_display: bool)
    ensures
        actions_view(final(acts)@) == actions_view(old(acts)@) + (if hook_running {
            seq![LoopActionView::AbortHook { notify_display }]
        } else {
            Seq::<LoopActionView>::empty()
        }),
{
    if hook_running {
        push_action(acts, LoopAction::AbortHook { notify_display });
        assert(actions_view(old(acts)@).push(LoopActionView::AbortHook { notify_display })
            =~= actions_view(old(acts)@) + seq![LoopActionView::AbortHook { notify_display }]);
    } else {
        assert(actions_view(acts@) =~= actions_view(acts@) + Seq::<LoopActionView>::empty());
    }
}

fn text(s: &str) -> (r: String)
    ensures
        r@ == s@,
{
    let mut r = String::new();
    push_str(&mut r, s);
    r
}

/// Names of the failed steps, in order.
pub fn failed_step_names(results: &[StepResult]) -> (names: Vec<String>)
    ensures
        strings_view(names@) == failed_names(results_view(results@)),
{
    let ghost rv = results_view(results@);
    let mut names: Vec<String> = Vec::new();
    let mut i: usize = 0;
    while i < results.len()
        invariant
            i <= results@.len(),
            rv == results_view(results@),
            strings_view(names@) == failed_names(rv.take(i as int)),
        decreases results.len() - i,
    {
        proof {
            assert(rv.take(i + 1).drop_last() =~= rv.take(i as int));
            assert(rv.take(i + 1).last() == results@[i as int]@);
        }
        let ghost before = strings_view(names@);
        if !results[i].success {
            names.push(results[i].name.clone());
            assert(strings_view(names@) =~= before + seq![results@[i as int].name@]);
        } else {
            assert(strings_view(names@) =~= before + Seq::<Seq<char>>::empty());
        }
        i = i + 1;
    }
    assert(rv.take(rv.len() as int) =~= rv);
    names
}

impl WatchLoop {
    /// The loop before the first run: running, with no trigger, no filter
    /// and no hook.
    pub fn new(root: String, is_tty: bool, hook_enabled: bool) -> (l: Self)
        ensures
            l@ == (WatchLoopView {
                phase: Phase::Running,
                trigger_paths: None,
                last_failed_steps: None,
                rerun_filter: None,
                hook_running: false,
                is_tty,
                hook_enabled,
                root: root@,
            }),
    {
        WatchLoop {
            phase: Phase::Running,
            trigger_paths: None,
            last_failed_steps: None,
            rerun_filter: None,
            hook_running: false,
            is_tty,
            hook_enabled,
            root,
        }
    }

    fn on_completed(&mut self, rs: Vec<StepResult>) -> (acts: Vec<LoopAction>)
        requires
            old(self).phase == Phase::Running,
        ensures
            final(self)@ == transition(old(self)@, LoopEvent::Completed(rs)).0,
            actions_view(acts@) == transition(old(self)@, LoopEvent::Completed(rs)).1,
    {
        let ghost s = self@;
        let ghost rv = results_view(rs@);
        proof {
            lemma_any_failed(rv);
        }
        let mut acts: Vec<LoopAction> = Vec::new();
        push_action(&mut acts, LoopAction::WriteRunLog(run_log_content(rs.as_slice())));
        push_abort(&mut acts, self.hook_running, true);
        let spawn = self.hook_enabled && !run_passed(rs.as_slice());
        if spawn {
            push_action(&mut acts, LoopAction::SpawnHook(combine_failed_output(rs.as_slice())));
        }
        let ghost mid = actions_view(acts@);
        if self.is_tty {
            push_action(&mut acts, LoopAction::DrainKeys);
            push_action(&mut acts, LoopAction::EnterBrowse);
        }
        self.last_failed_steps = Some(failed_step_names(rs.as_slice()));
        self.rerun_filter = None;
        self.hook_running = spawn;
        self.phase = if self.is_tty {
            Phase::Browsing
        } else {
            Phase::Idle
        };
        assert(actions_view(acts@) =~= transition(s, LoopEvent::Completed(rs)).1);
        acts
    }

    fn on_file_change(&mut self, ps: Vec<String>) -> (acts: Vec<LoopAction>)
        requires
            old(self).phase != Phase::Done,
        ensures
            final(self)@ == transition(old(self)@, LoopEvent::FileChange(ps)).0,
            actions_view(acts@) == transition(old(self)@, LoopEvent::FileChange(ps)).1,
    {
        let ghost s = self@;
        let rel = rel_paths(ps.as_slice(), self.root.as_str());
        let trig = copy_strings(&rel);
        let mut acts: Vec<LoopAction> = Vec::new();
        match self.phase {
            Phase::Running => {
                push_action(&mut acts, LoopAction::DrainWatcher);
                push_abort(&mut acts, self.hook_running, true);
                push_action(&mut acts, LoopAction::RunCancelled);
                push_action(&mut acts, LoopAction::SetTrigger(rel));
            },
            Phase::Browsing => {
                push_abort(&mut acts, self.hook_running, true);
                push_action(&mut acts, LoopAction::ExitBrowse);
                push_action(&mut acts, LoopAction::DrainWatcher);
                push_action(&mut acts, LoopAction::SetTrigger(rel));
            },
            _ => {
                push_abort(&mut acts, self.hook_running, false);
                push_action(&mut acts, LoopAction::DrainWatcher);
                push_action(&mut acts, LoopAction::SetTrigger(rel));
            },
        }
        self.trigger_paths = Some(trig);
        self.hook_running = false;
        self.phase = Phase::Running;
        assert(actions_view(acts@) =~= transition(s, LoopEvent::FileChange(ps)).1);
        acts
    }

    /// Leaves for good (`Stop`, `WatcherDied`, `q`) from any live phase.
    fn on_end(&mut self, e: LoopEvent) -> (acts: Vec<LoopAction>)
        requires
            old(self).phase != Phase::Done,
            e is Stop || e is WatcherDied || (old(self).phase == Phase::Browsing && e == LoopEvent::Key(
                BrowseAction::Quit,
            )),
        ensures
            final(self)@ == transition(old(self)@, e).0,
            actions_view(acts@) == transition(old(self)@, e).1,
    {
        let ghost s = self@;
        let mut acts: Vec<LoopAction> = Vec::new();
        let died = match e {
            LoopEvent::WatcherDied => true,
            _ => false,
        };
        if self.phase == Phase::Running && died {
            push_action(&mut acts, LoopAction::Exit(text("baraddur: file watcher stopped unexpectedly. exiting.")));
            self.phase = Phase::Done;
            assert(actions_view(acts@) =~= transition(s, e).1);
            return acts;
        }
        let browsing = self.phase == Phase::Browsing;
        push_abort(&mut acts, self.hook_running, self.phase != Phase::Idle);
        if browsing {
            push_action(&mut acts, LoopAction::ExitBrowse);
        }
        if died {
            push_action(&mut acts, LoopAction::Exit(text("baraddur: file watcher stopped unexpectedly. exiting.")));
        } else {
            push_action(&mut acts, LoopAction::Shutdown);
        }
        self.hook_running = false;
        self.phase = Phase::Done;
        assert(actions_view(acts@) =~= transition(s, e).1);
        acts
    }

    fn on_rerun(&mut self, filter: Option<Vec<String>>) -> (acts: Vec<LoopAction>)
        requires
            old(self).phase == Phase::Browsing,
        ensures
            final(self)@ == rerun(old(self)@, opt_strings(filter)).0,
            actions_view(acts@) == rerun(old(self)@, opt_strings(filter)).1,
    {
        let ghost s = self@;
        let mut acts: Vec<LoopAction> = Vec::new();
        push_abort(&mut acts, self.hook_running, true);
        push_action(&mut acts, LoopAction::ExitBrowse);
        self.trigger_paths = None;
        self.rerun_filter = filter;
        self.hook_running = false;
        self.phase = Phase::Running;
        assert(actions_view(acts@) =~= rerun(s, opt_strings(filter)).1);
        acts
    }

    fn on_hook_done(&mut self, out: Option<String>) -> (acts: Vec<LoopAction>)
        ensures
            final(self)@ == hook_settled(old(self)@, out).0,
            actions_view(acts@) == hook_settled(old(self)@, out).1,
    {
        let ghost s = self@;
        let ghost o = out;
        let mut acts: Vec<LoopAction> = Vec::new();
        if self.hook_running {
            self.hook_running = false;
            match out {
                Some(t) => push_action(&mut acts, LoopAction::HookOutput(t)),
                None => push_action(&mut acts, LoopAction::HookFinished),
            }
        }
        assert(actions_view(acts@) =~= hook_settled(s, o).1);
        acts
    }

    /// Takes one event: updates the state and returns the actions to
    /// perform, in order (see `transition`).
    pub fn handle(&mut self, e: LoopEvent) -> (acts: Vec<LoopAction>)
        ensures
            final(self)@ == transition(old(self)@, e).0,
            actions_view(acts@) == transition(old(self)@, e).1,
    {
        let ghost s = self@;
        let ghost ev = e;
        match self.phase {
            Phase::Done => {
                let acts: Vec<LoopAction> = Vec::new();
                assert(actions_view(acts@) =~= Seq::<LoopActionView>::empty());
                acts
            },
            Phase::Running => match e {
                LoopEvent::Completed(rs) => self.on_completed(rs),
                LoopEvent::FileChange(ps) => self.on_file_change(ps),
                LoopEvent::Stop => self.on_end(LoopEvent::Stop),
                LoopEvent::WatcherDied => self.on_end(LoopEvent::WatcherDied),
                _ => {
                    let acts: Vec<LoopAction> = Vec::new();
                    assert(actions_view(acts@) =~= Seq::<LoopActionView>::empty());
                    acts
                },
            },
            Phase::Browsing => match e {
                LoopEvent::Stop => self.on_end(LoopEvent::Stop),
                LoopEvent::WatcherDied => self.on_end(LoopEvent::WatcherDied),
                LoopEvent::FileChange(ps) => self.on_file_change(ps),
                LoopEvent::Key(a) => match a {
                    BrowseAction::Noop => {
                        let acts: Vec<LoopAction> = Vec::new();
                        assert(actions_view(acts@) =~= Seq::<LoopActionView>::empty());
                        acts
                    },
                    BrowseAction::Redraw => {
                        let mut acts: Vec<LoopAction> = Vec::new();
                        push_action(&mut acts, LoopAction::BrowseRedraw);
                        assert(actions_view(acts@) =~= seq![LoopActionView::BrowseRedraw]);
                        acts
                    },
                    BrowseAction::Quit => self.on_end(LoopEvent::Key(BrowseAction::Quit)),
                    BrowseAction::Rerun => self.on_rerun(None),
                    BrowseAction::RerunFailed => {
                        let f = match &self.last_failed_steps {
                            Some(v) => Some(copy_strings(v)),
                            None => None,
                        };
                        self.on_rerun(f)
                    },
                    BrowseAction::RerunCursor(name) => {
                        let ghost n = name@;
                        let mut v: Vec<String> = Vec::new();
                        v.push(name);
                        assert(strings_view(v@) =~= seq![n]);
                        self.on_rerun(Some(v))
                    },
                },
                LoopEvent::KeyReaderDied => {
                    let mut acts: Vec<LoopAction> = Vec::new();
                    push_action(&mut acts, LoopAction::ExitBrowse);
                    push_action(&mut acts, LoopAction::Exit(text("baraddur: keyboard reader stopped unexpectedly. exiting.")));
                    self.phase = Phase::Done;
                    assert(actions_view(acts@) =~= transition(s, ev).1);
                    acts
                },
                LoopEvent::HookDone(out) => self.on_hook_done(out),
                LoopEvent::Completed(_) => {
                    let acts: Vec<LoopAction> = Vec::new();
                    assert(actions_view(acts@) =~= Seq::<LoopActionView>::empty());
                    acts
                },
            },
            Phase::Idle => match e {
                LoopEvent::Stop => self.on_end(LoopEvent::Stop),
                LoopEvent::WatcherDied => self.on_end(LoopEvent::WatcherDied),
                LoopEvent::FileChange(ps) => self.on_file_change(ps),
                LoopEvent::HookDone(out) => self.on_hook_done(out),
                _ => {
                    let acts: Vec<LoopAction> = Vec::new();
                    assert(actions_view(acts@) =~= Seq::<LoopActionView>::empty());
                    acts
                },
            },
        }
    }
}

} // verus!
