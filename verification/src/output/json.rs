//! The NDJSON event stream for machine consumers: which event each pipeline
//! transition emits and what it carries. Event and field names are a
//! public contract; the caller adds the timestamp and writes one JSON
//! object per line.
use vstd::prelude::*;

use crate::config::schema::strings_view;
use crate::output::display::count_failed;
use crate::output::style::{strip_ansi, visible_chars};
use crate::pipeline::step::{StepResult, results_view};
use crate::watch_loop::opt_strings;

verus! {

/// One event of the stream.
#[derive(Debug)]
pub enum JsonEvent {
    RunStarted { run: u64, steps: Vec<String>, trigger: Option<Vec<String>> },
    StepRunning { name: String },
    StepFinished {
        name: String,
        success: bool,
        exit_code: Option<i32>,
        duration: std::time::Duration,
        /// Captured stdout with ANSI escapes removed.
        stdout: String,
        stdout_truncated: bool,
        /// Captured stderr with ANSI escapes removed.
        stderr: String,
        stderr_truncated: bool,
    },
    StepSkipped { name: String },
    RunCancelled { run: u64 },
    RunFinished { run: u64, passed: usize, failed: usize, skipped: u64 },
}

/// The state of the JSON display between events.
pub struct JsonDisplay {
    /// Counts runs; increased when each run starts.
    pub run_count: u64,
    /// Paths that triggered the next run; taken when it starts.
    pub trigger_paths: Option<Vec<String>>,
    /// Steps skipped in the current run, reported in `run_finished`.
    pub skipped_in_run: u64,
}

impl JsonDisplay {
    pub fn new() -> (d: Self)
        ensures
            d.run_count == 0,
            d.trigger_paths is None,
            d.skipped_in_run == 0,
    {
        JsonDisplay { run_count: 0, trigger_paths: None, skipped_in_run: 0 }
    }

    /// Stores the paths that triggered the next run.
    pub fn set_trigger(&mut self, paths: &[String])
        ensures
            opt_strings(final(self).trigger_paths) == Some(strings_view(paths@)),
            final(self).run_count == old(self).run_count,
            final(self).skipped_in_run == old(self).skipped_in_run,
    {
        let mut v: Vec<String> = Vec::new();
        let mut i: usize = 0;
        while i < paths.len()
            invariant
                i <= paths@.len(),
                strings_view(v@) == strings_view(paths@).take(i as int),
            decreases paths.len() - i,
        {
            let ghost before = strings_view(v@);
            v.push(paths[i].clone());
            assert(strings_view(v@) =~= before.push(paths@[i as int]@));
            assert(strings_view(paths@).take(i + 1) =~= strings_view(paths@).take(i as int).push(
                paths@[i as int]@,
            ));
            i = i + 1;
        }
        assert(strings_view(paths@).take(i as int) =~= strings_view(paths@));
        self.trigger_paths = Some(v);
    }

    /// A run starts: the run is counted, the skip counter reset and the
    /// trigger taken into the event.
    pub fn run_started(&mut self, step_names: &[String]) -> (e: JsonEvent)
        requires
            old(self).run_count < u64::MAX,
        ensures
            final(self).run_count == old(self).run_count + 1,
            final(self).skipped_in_run == 0,
            final(self).trigger_paths is None,
            e matches JsonEvent::RunStarted { run, steps, trigger } && run == final(self).run_count
                && strings_view(steps@) == strings_view(step_names@) && opt_strings(trigger)
                == opt_strings(old(self).trigger_paths),
    {
        self.run_count = self.run_count + 1;
        self.skipped_in_run = 0;
        let trigger = self.trigger_paths.take();
        let mut steps: Vec<String> = Vec::new();
        let mut i: usize = 0;
        while i < step_names.len()
            invariant
                i <= step_names@.len(),
                strings_view(steps@) == strings_view(step_names@).take(i as int),
            decreases step_names.len() - i,
        {
            let ghost before = strings_view(steps@);
            steps.push(step_names[i].clone());
            assert(strings_view(steps@) =~= before.push(step_names@[i as int]@));
            assert(strings_view(step_names@).take(i + 1) =~= strings_view(step_names@).take(
                i as int,
            ).push(step_names@[i as int]@));
            i = i + 1;
        }
        assert(strings_view(step_names@).take(i as int) =~= strings_view(step_names@));
        JsonEvent::RunStarted { run: self.run_count, steps, trigger }
    }

    pub fn step_running(&self, name: &str) -> (e: JsonEvent)
        ensures
            e matches JsonEvent::StepRunning { name: n } && n@ == name@,
    {
        JsonEvent::StepRunning { name: name.to_owned() }
    }

    /// A step finished: its outcome, with ANSI escapes removed from the
    /// captured output.
    pub fn step_finished(&self, result: &StepResult) -> (e: JsonEvent)
        ensures
            e matches JsonEvent::StepFinished {
                name,
                success,
                exit_code,
                duration,
                stdout,
                stdout_truncated,
                stderr,
                stderr_truncated,
            } && name@ == result.name@ && success == result.success && exit_code
                == result.exit_code && duration == result.duration && stdout@ == visible_chars(
                result.stdout@,
                false,
            ) && stdout_truncated == result.stdout_truncated && stderr@ == visible_chars(
                result.stderr@,
                false,
            ) && stderr_truncated == result.stderr_truncated,
    {
        JsonEvent::StepFinished {
            name: result.name.clone(),
            success: result.success,
            exit_code: result.exit_code,
            duration: result.duration,
            stdout: strip_ansi(result.stdout.as_str()),
            stdout_truncated: result.stdout_truncated,
            stderr: strip_ansi(result.stderr.as_str()),
            stderr_truncated: result.stderr_truncated,
        }
    }

    /// Steps were skipped: one event each, and the skip counter grows.
    pub fn steps_skipped(&mut self, names: &[String]) -> (events: Vec<JsonEvent>)
        requires
            old(self).skipped_in_run + names@.len() <= u64::MAX,
        ensures
            final(self).skipped_in_run == old(self).skipped_in_run + names@.len(),
            final(self).run_count == old(self).run_count,
            final(self).trigger_paths == old(self).trigger_paths,
            events@.len() == names@.len(),
            forall|i: int|
                0 <= i < names@.len() ==> (#[trigger] events@[i] matches JsonEvent::StepSkipped {
                    name,
                } && name@ == names@[i]@),
    {
        let mut events: Vec<JsonEvent> = Vec::new();
        let mut i: usize = 0;
        while i < names.len()
            invariant
                i <= names@.len(),
                self.skipped_in_run == old(self).skipped_in_run + i,
                old(self).skipped_in_run + names@.len() <= u64::MAX,
                self.run_count == old(self).run_count,
                self.trigger_paths == old(self).trigger_paths,
                events@.len() == i,
                forall|j: int|
                    0 <= j < i ==> (#[trigger] events@[j] matches JsonEvent::StepSkipped { name }
                        && name@ == names@[j]@),
            decreases names.len() - i,
        {
            self.skipped_in_run = self.skipped_in_run + 1;
            events.push(JsonEvent::StepSkipped { name: names[i].clone() });
            i = i + 1;
        }
        events
    }

    pub fn run_cancelled(&self) -> (e: JsonEvent)
        ensures
            e == (JsonEvent::RunCancelled { run: self.run_count }),
    {
        JsonEvent::RunCancelled { run: self.run_count }
    }

    /// A run finished: its counts, with the steps skipped in it.
    pub fn run_finished(&self, results: &[StepResult]) -> (e: JsonEvent)
        ensures
            e == (JsonEvent::RunFinished {
                run: self.run_count,
                passed: (results@.len() - count_failed(results_view(results@))) as usize,
                failed: count_failed(results_view(results@)) as usize,
                skipped: self.skipped_in_run,
            }),
    {
        let ghost rs = results_view(results@);
        let mut failed: usize = 0;
        let mut j: usize = 0;
        while j < results.len()
            invariant
                j <= results@.len(),
                rs == results_view(results@),
                failed == count_failed(rs.take(j as int)),
                failed <= j,
            decreases results.len() - j,
        {
            proof {
                assert(rs.take(j + 1).drop_last() =~= rs.take(j as int));
                assert(rs.take(j + 1).last() == results@[j as int]@);
            }
            if !results[j].success {
                failed = failed + 1;
            }
            j = j + 1;
        }
        assert(rs.take(j as int) =~= rs);
        JsonEvent::RunFinished {
            run: self.run_count,
            passed: results.len() - failed,
            failed,
            skipped: self.skipped_in_run,
        }
    }
}

impl Default for JsonDisplay {
    fn default() -> (d: Self)
        ensures
            d.run_count == 0,
            d.trigger_paths is None,
            d.skipped_in_run == 0,
    {
        JsonDisplay::new()
    }
}

// ── Counters across calls ───────────────────────────────────────────────────

/// A call that changes the counters of a `JsonDisplay` (the others take it
/// by shared reference): `set_trigger`, `run_started`, and `steps_skipped`
/// with this many names.
pub enum JsonCall {
    Trigger,
    Started,
    Skipped(nat),
}

/// `after` is `before` after `call`, as the call's contract says.
pub open spec fn json_call_effect(before: JsonDisplay, after: JsonDisplay, call: JsonCall) -> bool {
    match call {
        JsonCall::Trigger => after.run_count == before.run_count && after.skipped_in_run
            == before.skipped_in_run,
        JsonCall::Started => after.run_count == before.run_count + 1 && after.skipped_in_run == 0,
        JsonCall::Skipped(n) => after.run_count == before.run_count && after.skipped_in_run
            == before.skipped_in_run + n,
    }
}

/// The runs started by `calls`.
pub open spec fn runs_started(calls: Seq<JsonCall>) -> nat
    decreases calls.len(),
{
    if calls.len() == 0 {
        0
    } else {
        runs_started(calls.drop_last()) + if calls.last() is Started {
            1nat
        } else {
            0nat
        }
    }
}

/// The names skipped since the last `run_started` of `calls` (since the
/// start when there is none).
pub open spec fn skipped_since_start(calls: Seq<JsonCall>) -> nat
    decreases calls.len(),
{
    if calls.len() == 0 {
        0
    } else {
        match calls.last() {
            JsonCall::Started => 0,
            JsonCall::Skipped(n) => skipped_since_start(calls.drop_last()) + n,
            JsonCall::Trigger => skipped_since_start(calls.drop_last()),
        }
    }
}

/// From a new display, after any sequence of calls, the run number is the
/// count of `run_started` calls and the skip count is the number of names
/// skipped since the last of them: the count restarts with every run, and
/// `run_finished` reports both.
pub proof fn law_json_counters_follow_calls(states: Seq<JsonDisplay>, calls: Seq<JsonCall>)
    requires
        states.len() == calls.len() + 1,
        states[0].run_count == 0,
        states[0].skipped_in_run == 0,
        forall|k: int| 0 <= k < calls.len() ==> json_call_effect(#[trigger] states[k], states[k + 1], calls[k]),
    ensures
        states.last().run_count == runs_started(calls),
        states.last().skipped_in_run == skipped_since_start(calls),
    decreases calls.len(),
{
    if calls.len() > 0 {
        let n = calls.len() - 1;
        let s2 = states.drop_last();
        let c2 = calls.drop_last();
        assert forall|k: int| 0 <= k < c2.len() implies json_call_effect(#[trigger] s2[k], s2[k + 1], c2[k]) by {
            assert(s2[k] == states[k] && s2[k + 1] == states[k + 1] && c2[k] == calls[k]);
        }
        law_json_counters_follow_calls(s2, c2);
        assert(json_call_effect(states[n], states[n + 1], calls[n]));
        assert(s2.last() == states[n]);
    }
}

} // verus!
