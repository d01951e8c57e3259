//! Baraddur: a file watcher that reruns a configured pipeline of checks.
//!
//! This crate holds what the tool decides and computes: the configuration
//! model and its validation, which steps a change triggers and how they are
//! staged, what is shown of their results, and the watch loop's decisions.
pub mod config;
pub mod git;
pub mod glob;
pub mod loop_guard;
pub mod output;
pub mod path;
pub mod pipeline;
pub mod shell;
pub mod text;
pub mod watch_loop;
pub mod watcher;

use vstd::prelude::*;

use crate::config::schema::{OnFailureConfig, Step, StepView, steps_view, strings_view};
use crate::config::validate::profiles_view;
use crate::config::{Config, ConfigSource};
use crate::output::{DisplayConfig, Verbosity};
use crate::pipeline::run::{select_steps, selected};
use crate::pipeline::hook::{combined_failures, push_line_block, with_newline};
use crate::pipeline::step::{StepResult, StepResultView, results_view};
use crate::text::{
    lemma_text_lt_asymmetric, lemma_text_lt_irreflexive, lemma_text_lt_total, lemma_text_lt_transitive,
    push_char, push_str, text_less, text_lt,
};
use crate::watcher::relative_to;

verus! {

/// Everything the watch loop and the one-shot run need.
pub struct App {
    pub config: config::Config,
    pub config_path: String,
    pub root: String,
    pub display_config: DisplayConfig,
}

/// Options for a one-shot run.
#[derive(Debug, Clone)]
pub struct RunOnceOptions {
    /// Skip the configured `[on_failure]` hook even if enabled.
    pub no_hook: bool,
    /// Initial trigger paths (relative to the root). When `Some`, steps are
    /// filtered by `if_changed` and `{files}` is substituted exactly as on a
    /// file change in watch mode. `None` runs every step.
    pub initial_trigger: Option<Vec<String>>,
}

impl Default for RunOnceOptions {
    fn default() -> (o: Self)
        ensures
            !o.no_hook,
            o.initial_trigger is None,
    {
        RunOnceOptions { no_hook: false, initial_trigger: None }
    }
}

// ── Specification ───────────────────────────────────────────────────────────

/// The section one step contributes to `.baraddur/last-run.log`.
pub open spec fn log_entry(r: StepResultView) -> Seq<char> {
    "═══ "@ + r.name + " ("@ + (if r.success {
        "pass"@
    } else {
        "FAIL"@
    }) + ") ═══\n"@ + (if r.stdout.len() > 0 {
        with_newline(r.stdout)
    } else {
        seq![]
    }) + (if r.stderr.len() > 0 {
        "--- stderr ---\n"@ + with_newline(r.stderr)
    } else {
        seq![]
    }) + "\n"@
}

/// The whole log of a run: one section per step, in order.
pub open spec fn run_log(rs: Seq<StepResultView>) -> Seq<char>
    decreases rs.len(),
{
    if rs.len() == 0 {
        seq![]
    } else {
        run_log(rs.drop_last()) + log_entry(rs.last())
    }
}

/// Whether every step of a run passed.
pub open spec fn all_passed(rs: Seq<StepResultView>) -> bool {
    forall|i: int| 0 <= i < rs.len() ==> #[trigger] rs[i].success
}

// ── Executable operations ───────────────────────────────────────────────────

/// Appends the log section of one step.
fn push_log_entry(content: &mut String, r: &StepResult)
    ensures
        final(content)@ == old(content)@ + log_entry(r@),
{
    push_str(content, "═══ ");
    push_str(content, r.name.as_str());
    push_str(content, " (");
    if r.success {
        push_str(content, "pass");
    } else {
        push_str(content, "FAIL");
    }
    push_str(content, ") ═══\n");
    if !r.stdout.as_str().is_empty() {
        push_line_block(content, r.stdout.as_str());
    }
    if !r.stderr.as_str().is_empty() {
        push_str(content, "--- stderr ---\n");
        push_line_block(content, r.stderr.as_str());
    }
    push_str(content, "\n");
    assert(final(content)@ =~= old(content)@ + log_entry(r@));
}

/// The text written to `.baraddur/last-run.log` after a run.
pub fn run_log_content(results: &[StepResult]) -> (content: String)
    ensures
        content@ == run_log(results_view(results@)),
{
    let ghost rv = results_view(results@);
    let mut content = String::new();
    let mut i: usize = 0;
    while i < results.len()
        invariant
            i <= results@.len(),
            rv == results_view(results@),
            content@ == run_log(rv.take(i as int)),
        decreases results.len() - i,
    {
        proof {
            assert(rv.take(i + 1).drop_last() =~= rv.take(i as int));
            assert(rv.take(i + 1).last() == results@[i as int]@);
        }
        push_log_entry(&mut content, &results[i]);
        i = i + 1;
    }
    assert(rv.take(rv.len() as int) =~= rv);
    content
}

/// The changed paths relative to the root; a path outside it stays as it
/// is.
pub fn rel_paths(paths: &[String], root: &str) -> (out: Vec<String>)
    ensures
        strings_view(out@) == strings_view(paths@).map_values(|p: Seq<char>| relative_to(p, root@)),
{
    let ghost pv = strings_view(paths@);
    let mut out: Vec<String> = Vec::new();
    let mut i: usize = 0;
    while i < paths.len()
        invariant
            i <= paths@.len(),
            pv == strings_view(paths@),
            strings_view(out@) == pv.take(i as int).map_values(|p: Seq<char>| relative_to(p, root@)),
        decreases paths.len() - i,
    {
        let rel = match crate::path::strip_prefix_of(paths[i].as_str(), root) {
            Some(r) => r,
            None => paths[i].clone(),
        };
        let ghost before = strings_view(out@);
        out.push(rel);
        proof {
            assert(strings_view(out@) =~= before.push(rel@));
            assert(pv.take(i + 1) =~= pv.take(i as int).push(pv[i as int]));
            assert(pv.take(i + 1).map_values(|p: Seq<char>| relative_to(p, root@)) =~= pv.take(
                i as int,
            ).map_values(|p: Seq<char>| relative_to(p, root@)).push(relative_to(pv[i as int], root@)));
        }
        i = i + 1;
    }
    assert(pv.take(i as int) =~= pv);
    out
}

/// Whether every step of a run passed.
pub fn run_passed(results: &[StepResult]) -> (b: bool)
    ensures
        b == all_passed(results_view(results@)),
{
    let ghost rv = results_view(results@);
    let mut i: usize = 0;
    while i < results.len()
        invariant
            i <= results@.len(),
            rv == results_view(results@),
            forall|j: int| 0 <= j < i ==> #[trigger] rv[j].success,
        decreases results.len() - i,
    {
        if !results[i].success {
            assert(!rv[i as int].success);
            return false;
        }
        i = i + 1;
    }
    true
}

/// After a one-shot run: the text to feed the `[on_failure]` hook, when the
/// hook is to run at all (the run failed, the hook is enabled and was not
/// switched off for this run).
pub fn run_once_hook_input(results: &[StepResult], no_hook: bool, hook_enabled: bool) -> (r:
    Option<String>)
    ensures
        match r {
            Some(text) => !all_passed(results_view(results@)) && !no_hook && hook_enabled
                && text@ == combined_failures(results_view(results@)),
            None => all_passed(results_view(results@)) || no_hook || !hook_enabled,
        },
{
    if !run_passed(results) && !no_hook && hook_enabled {
        Some(crate::pipeline::hook::combine_failed_output(results))
    } else {
        None
    }
}


// ── Command-line decisions ──────────────────────────────────────────────────

/// The verbosity the flags ask for: `-q` wins; each `-v` raises it, up to
/// debug output.
pub fn verbosity_from_flags(quiet: bool, verbose: u8) -> (v: Verbosity)
    ensures
        v == (if quiet {
            Verbosity::Quiet
        } else if verbose == 0 {
            Verbosity::Normal
        } else if verbose == 1 {
            Verbosity::Verbose
        } else {
            Verbosity::Debug
        }),
{
    if quiet {
        Verbosity::Quiet
    } else if verbose == 0 {
        Verbosity::Normal
    } else if verbose == 1 {
        Verbosity::Verbose
    } else {
        Verbosity::Debug
    }
}

/// Whether the default watch root is the directory of the config file: so
/// when it was found by walking up, so that the watcher is anchored at the
/// project root; otherwise it is the current directory.
pub fn root_is_config_dir(source: ConfigSource) -> (b: bool)
    ensures
        b == (source == ConfigSource::WalkUp),
{
    match source {
        ConfigSource::WalkUp => true,
        _ => false,
    }
}

/// Longest the `[on_failure]` hook may run under `gate`, in seconds.
pub const GATE_HOOK_TIMEOUT_SECS: u64 = 15;

/// The hook configuration for `gate`: its timeout is at most
/// `GATE_HOOK_TIMEOUT_SECS`, so a failing gate returns quickly.
pub fn gate_hook_config(cfg: &OnFailureConfig) -> (out: OnFailureConfig)
    ensures
        out.enabled == cfg.enabled,
        out.cmd@ == cfg.cmd@,
        out.prompt@ == cfg.prompt@,
        out.timeout_secs == (if cfg.timeout_secs < GATE_HOOK_TIMEOUT_SECS {
            cfg.timeout_secs
        } else {
            GATE_HOOK_TIMEOUT_SECS
        }),
{
    let mut out = cfg.duplicate();
    if out.timeout_secs > GATE_HOOK_TIMEOUT_SECS {
        out.timeout_secs = GATE_HOOK_TIMEOUT_SECS;
    }
    out
}

/// `gate --staged` with nothing staged skips the pipeline: there is
/// nothing to verify.
pub fn gate_skips_pipeline(staged: bool, trigger: Option<&[String]>) -> (b: bool)
    ensures
        b == (staged && (trigger matches Some(t) && t@.len() == 0)),
{
    staged && match trigger {
        Some(t) => t.len() == 0,
        None => false,
    }
}

/// The process exit code for the wrapped command's status: itself when it
/// fits in a byte, else 1.
pub fn gate_exit_code(code: i32) -> (r: u8)
    ensures
        r == (if 0 <= code <= 255 {
            code as u8
        } else {
            1u8
        }),
{
    if 0 <= code && code <= 255 {
        code as u8
    } else {
        1
    }
}

/// The members of the first profile named `name`.
pub open spec fn profile_members(profiles: Seq<(Seq<char>, Seq<Seq<char>>)>, name: Seq<char>) -> Option<
    Seq<Seq<char>>,
>
    decreases profiles.len(),
{
    if profiles.len() == 0 {
        None
    } else if profiles[0].0 == name {
        Some(profiles[0].1)
    } else {
        profile_members(profiles.drop_first(), name)
    }
}

/// Each profile is listed once, in the order the names sort (as a map
/// keyed by name holds them).
pub open spec fn profiles_sorted(profiles: Seq<(Seq<char>, Seq<Seq<char>>)>) -> bool {
    forall|i: int, j: int|
        0 <= i < j < profiles.len() ==> text_lt(#[trigger] profiles[i].0, #[trigger] profiles[j].0)
}

proof fn lemma_profile_members_concat(
    a: Seq<(Seq<char>, Seq<Seq<char>>)>,
    b: Seq<(Seq<char>, Seq<Seq<char>>)>,
    k: Seq<char>,
)
    ensures
        profile_members(a + b, k) == match profile_members(a, k) {
            Some(m) => Some(m),
            None => profile_members(b, k),
        },
    decreases a.len(),
{
    if a.len() == 0 {
        assert(a + b =~= b);
    } else {
        assert((a + b)[0] == a[0]);
        assert((a + b).drop_first() =~= a.drop_first() + b);
        lemma_profile_members_concat(a.drop_first(), b, k);
    }
}

proof fn lemma_profile_members_absent(a: Seq<(Seq<char>, Seq<Seq<char>>)>, k: Seq<char>)
    requires
        forall|i: int| 0 <= i < a.len() ==> (#[trigger] a[i]).0 != k,
    ensures
        profile_members(a, k) is None,
    decreases a.len(),
{
    if a.len() > 0 {
        assert(a[0].0 != k);
        assert forall|i: int| 0 <= i < a.drop_first().len() implies (#[trigger] a.drop_first()[i]).0 != k by {
            assert(a.drop_first()[i] == a[i + 1]);
        }
        lemma_profile_members_absent(a.drop_first(), k);
    }
}

/// Adds profile `name` with `members`, replacing a profile of that name, and
/// keeps the names sorted and distinct: afterwards `name` has `members`,
/// every other name keeps what it had, and no other profile appears or
/// goes.
pub fn insert_profile(profiles: &mut Vec<(String, Vec<String>)>, name: String, members: Vec<String>)
    requires
        profiles_sorted(profiles_view(old(profiles)@)),
    ensures
        profiles_sorted(profiles_view(final(profiles)@)),
        profile_members(profiles_view(final(profiles)@), name@) == Some(strings_view(members@)),
        forall|k: Seq<char>|
            k != name@ ==> #[trigger] profile_members(profiles_view(final(profiles)@), k)
                == profile_members(profiles_view(old(profiles)@), k),
        final(profiles)@.len() == old(profiles)@.len() + (if profile_members(
            profiles_view(old(profiles)@),
            name@,
        ) is Some {
            0int
        } else {
            1int
        }),
{
    let ghost pv = profiles_view(profiles@);
    let ghost nv = name@;
    let ghost mv = strings_view(members@);
    let mut i: usize = 0;
    let mut go = profiles.len() > 0 && text_less(profiles[0].0.as_str(), name.as_str());
    while go
        invariant
            i <= profiles@.len(),
            pv == profiles_view(profiles@),
            profiles@ == old(profiles)@,
            forall|j: int| 0 <= j < i ==> text_lt(#[trigger] pv[j].0, nv),
            go ==> i < profiles@.len() && text_lt(pv[i as int].0, nv),
            !go ==> (i >= profiles@.len() || !text_lt(pv[i as int].0, nv)),
            nv == name@,
        decreases profiles.len() - i,
    {
        i = i + 1;
        go = i < profiles.len() && text_less(profiles[i].0.as_str(), name.as_str());
    }
    // Everything before `i` sorts before `name`, so none of it is `name`.
    proof {
        assert forall|j: int| 0 <= j < i implies (#[trigger] pv.take(i as int)[j]).0 != nv by {
            lemma_text_lt_irreflexive(nv);
            assert(pv.take(i as int)[j] == pv[j]);
        }
        lemma_profile_members_absent(pv.take(i as int), nv);
        assert(pv =~= pv.take(i as int) + pv.skip(i as int));
        lemma_profile_members_concat(pv.take(i as int), pv.skip(i as int), nv);
    }
    let same = i < profiles.len() && profiles[i].0 == name;
    let ghost entry = (nv, mv);
    if same {
        let ghost before = pv;
        profiles[i] = (name, members);
        let ghost after = profiles_view(profiles@);
        proof {
            assert(after =~= before.update(i as int, entry));
            assert(after =~= before.take(i as int) + seq![entry] + before.skip(i + 1));
            assert(before.skip(i as int) =~= seq![before[i as int]] + before.skip(i + 1));
            assert forall|a: int, b: int| 0 <= a < b < after.len() implies text_lt(
                #[trigger] after[a].0,
                #[trigger] after[b].0,
            ) by {
                assert(after[a].0 == before[a].0);
                assert(after[b].0 == before[b].0);
            }
            assert forall|k: Seq<char>| k != nv implies #[trigger] profile_members(after, k)
                == profile_members(before, k) by {
                lemma_profile_members_concat(before.take(i as int) + seq![entry], before.skip(i + 1), k);
                lemma_profile_members_concat(before.take(i as int), seq![entry], k);
                lemma_profile_members_concat(before.take(i as int) + seq![before[i as int]], before.skip(i + 1), k);
                lemma_profile_members_concat(before.take(i as int), seq![before[i as int]], k);
                assert(seq![entry][0].0 != k);
                lemma_profile_members_absent(seq![entry], k);
                assert(seq![before[i as int]][0].0 != k);
                lemma_profile_members_absent(seq![before[i as int]], k);
                assert(before =~= before.take(i as int) + seq![before[i as int]] + before.skip(i + 1));
            }
            lemma_profile_members_concat(before.take(i as int) + seq![entry], before.skip(i + 1), nv);
            lemma_profile_members_concat(before.take(i as int), seq![entry], nv);
            assert(before.skip(i as int)[0] == before[i as int]);
        }
    } else {
        let ghost before = pv;
        proof {
            if i < before.len() {
                lemma_text_lt_total(before[i as int].0, nv);
                assert(before[i as int].0 != nv);
                assert(!text_lt(before[i as int].0, nv));
                assert(text_lt(nv, before[i as int].0));
                assert(before.skip(i as int)[0] == before[i as int]);
            } else {
                assert(before.skip(i as int) =~= Seq::<(Seq<char>, Seq<Seq<char>>)>::empty());
            }
        }
        profiles.insert(i, (name, members));
        let ghost after = profiles_view(profiles@);
        proof {
            assert(after =~= before.insert(i as int, entry));
            assert(after =~= before.take(i as int) + seq![entry] + before.skip(i as int));
            assert forall|a: int, b: int| 0 <= a < b < after.len() implies text_lt(
                #[trigger] after[a].0,
                #[trigger] after[b].0,
            ) by {
                if b < i {
                    assert(after[a] == before[a] && after[b] == before[b]);
                } else if b == i {
                    assert(after[a] == before[a]);
                } else if a < i {
                    assert(after[a] == before[a] && after[b] == before[b - 1]);
                    assert(text_lt(before[a].0, nv));
                    assert(text_lt(nv, before[i as int].0));
                    lemma_text_lt_transitive(before[a].0, nv, before[i as int].0);
                    if b - 1 > i {
                        lemma_text_lt_transitive(before[a].0, before[i as int].0, before[b - 1].0);
                    }
                } else if a == i {
                    assert(after[b] == before[b - 1]);
                    assert(text_lt(nv, before[i as int].0));
                    if b - 1 > i {
                        lemma_text_lt_transitive(nv, before[i as int].0, before[b - 1].0);
                    }
                } else {
                    assert(after[a] == before[a - 1] && after[b] == before[b - 1]);
                }
            }
            // `name` sorts before every profile from `i` on, so none of them is it.
            assert forall|j: int| 0 <= j < before.skip(i as int).len() implies (
            #[trigger] before.skip(i as int)[j]).0 != nv by {
                assert(before.skip(i as int)[j] == before[i + j]);
                lemma_text_lt_asymmetric(nv, before[i + j].0);
                if j > 0 {
                    lemma_text_lt_transitive(nv, before[i as int].0, before[i + j].0);
                }
                lemma_text_lt_irreflexive(nv);
            }
            lemma_profile_members_absent(before.skip(i as int), nv);
            assert forall|k: Seq<char>| k != nv implies #[trigger] profile_members(after, k)
                == profile_members(before, k) by {
                lemma_profile_members_concat(before.take(i as int) + seq![entry], before.skip(i as int), k);
                lemma_profile_members_concat(before.take(i as int), seq![entry], k);
                lemma_profile_members_concat(before.take(i as int), before.skip(i as int), k);
                assert(seq![entry][0].0 != k);
                lemma_profile_members_absent(seq![entry], k);
                assert(before =~= before.take(i as int) + before.skip(i as int));
            }
            lemma_profile_members_concat(before.take(i as int) + seq![entry], before.skip(i as int), nv);
            lemma_profile_members_concat(before.take(i as int), seq![entry], nv);
        }
    }
}

pub open spec fn unknown_profile_message(name: Seq<char>) -> Seq<char> {
    "unknown profile `"@ + name + "`"@
}

/// Narrows the configured steps to the members of profile `name`, in
/// configuration order. A name no profile has is an error.
pub fn apply_profile(config: &mut Config, name: &str) -> (r: Result<(), String>)
    ensures
        match profile_members(profiles_view(old(config).profiles@), name@) {
            Some(members) => r is Ok && steps_view(final(config).steps@) == selected(
                steps_view(old(config).steps@),
                Some(members),
            ),
            None => r matches Err(e) && e@ == unknown_profile_message(name@) && steps_view(
                final(config).steps@,
            ) == steps_view(old(config).steps@),
        },
        profiles_view(final(config).profiles@) == profiles_view(old(config).profiles@),
{
    let ghost pv = profiles_view(config.profiles@);
    let target = name.to_owned();
    let mut i: usize = 0;
    assert(pv.skip(0) =~= pv);
    while i < config.profiles.len()
        invariant
            i <= config.profiles@.len(),
            pv == profiles_view(config.profiles@),
            config == old(config),
            target@ == name@,
            profile_members(pv.skip(i as int), name@) == profile_members(pv, name@),
        decreases config.profiles.len() - i,
    {
        proof {
            assert(pv.skip(i as int)[0] == pv[i as int]);
            assert(pv.skip(i as int).drop_first() =~= pv.skip(i + 1));
            assert(pv[i as int] == (config.profiles@[i as int].0@, strings_view(
                config.profiles@[i as int].1@,
            )));
        }
        let same = config.profiles[i].0 == target;
        if same {
            let members = &config.profiles[i].1;
            let chosen = select_steps(config.steps.as_slice(), Some(members.as_slice()));
            config.steps = chosen;
            return Ok(());
        }
        i = i + 1;
    }
    let mut e = String::new();
    push_str(&mut e, "unknown profile `");
    push_str(&mut e, name);
    push_str(&mut e, "`");
    Err(e)
}

} // verus!
