//! Path-based step filtering and `{files}` substitution.
//!
//! - Initial run (no trigger): every step runs; `{files}` becomes empty.
//! - File-change run: a step without `if_changed` runs and gets every
//!   changed path; a step with `if_changed` runs only when some changed path
//!   matches one of its globs, and gets only the matching paths.
//!
//! Substituted paths are shell-quoted and separated by single spaces.
use vstd::prelude::*;

use crate::config::schema::{Step, StepView, steps_view, strings_view, copy_strings};
use crate::glob::{
    first_bad_glob, glob_error, glob_parse_error, glob_set_build_error, glob_set_error, glob_set_is_match,
    glob_set_matches, lemma_first_bad_glob,
};
use crate::shell::{quote, quote_spec};
use crate::text::{chars_of, contains, contains_chars, join, push_str, replace_all, replace_all_chars, string_of};

verus! {

/// The placeholder that `{files}` substitution replaces.
pub open spec fn files_token() -> Seq<char> {
    "{files}"@
}

/// The paths of a trigger, by their text.
pub open spec fn trigger_view(trigger: Option<&[String]>) -> Option<Seq<Seq<char>>> {
    match trigger {
        Some(t) => Some(strings_view(t@)),
        None => None,
    }
}

/// The trigger paths a step receives in `{files}`.
pub open spec fn matched_paths(step: StepView, trigger: Seq<Seq<char>>) -> Seq<Seq<char>> {
    if step.if_changed.len() == 0 {
        trigger
    } else {
        trigger.filter(|p: Seq<char>| glob_set_matches(step.if_changed, p))
    }
}

/// `cmd` with every `{files}` replaced by the quoted paths, space-separated.
pub open spec fn substitute_files(cmd: Seq<char>, paths: Seq<Seq<char>>) -> Seq<char> {
    replace_all(cmd, files_token(), join(paths.map_values(|p: Seq<char>| quote_spec(p)), " "@))
}

/// The step as it runs: `cmd` templated when it mentions `{files}`.
pub open spec fn templated(step: StepView, paths: Seq<Seq<char>>) -> StepView {
    StepView {
        cmd: if contains(step.cmd, files_token()) {
            substitute_files(step.cmd, paths)
        } else {
            step.cmd
        },
        ..step
    }
}

/// The error reported for a step whose `if_changed` holds a bad glob.
pub open spec fn bad_glob_message(name: Seq<char>, pattern: Seq<char>) -> Seq<char> {
    "step `"@ + name + "`: invalid glob `"@ + pattern + "`: "@ + glob_error(pattern)->0
}

/// The error reported for a step whose glob set fails to build.
pub open spec fn set_build_message(name: Seq<char>, error: Seq<char>) -> Seq<char> {
    "step `"@ + name + "`: building globset: "@ + error
}

/// What happens to one step: dropped (`Ok(None)`), kept in its run form
/// (`Ok(Some(..))`), or an error for an invalid glob or a glob set that
/// does not build. Globs are compiled only when a trigger is present and the
/// step has `if_changed` patterns.
pub open spec fn step_outcome(step: StepView, trigger: Option<Seq<Seq<char>>>) -> Result<
    Option<StepView>,
    Seq<char>,
> {
    match trigger {
        None => Ok(Some(templated(step, seq![]))),
        Some(paths) => if step.if_changed.len() > 0 && first_bad_glob(step.if_changed) is Some {
            Err(bad_glob_message(step.name, step.if_changed[first_bad_glob(step.if_changed)->0]))
        } else if step.if_changed.len() > 0 && glob_set_error(step.if_changed) is Some {
            Err(set_build_message(step.name, glob_set_error(step.if_changed)->0))
        } else {
            let m = matched_paths(step, paths);
            if step.if_changed.len() == 0 || m.len() > 0 {
                Ok(Some(templated(step, m)))
            } else {
                Ok(None)
            }
        },
    }
}

/// The steps to run, in order, or the first step's glob error.
pub open spec fn filter_spec(steps: Seq<StepView>, trigger: Option<Seq<Seq<char>>>) -> Result<
    Seq<StepView>,
    Seq<char>,
>
    decreases steps.len(),
{
    if steps.len() == 0 {
        Ok(seq![])
    } else {
        match filter_spec(steps.drop_last(), trigger) {
            Err(e) => Err(e),
            Ok(kept) => match step_outcome(steps.last(), trigger) {
                Err(e) => Err(e),
                Ok(None) => Ok(kept),
                Ok(Some(s)) => Ok(kept.push(s)),
            },
        }
    }
}

/// Returns the subset of `steps` that should run given `trigger`, with
/// `{files}` substituted in each step's `cmd`. Step order is preserved.
pub fn filter_and_template(steps: &[Step], trigger: Option<&[String]>) -> (r: Result<
    Vec<Step>,
    String,
>)
    ensures
        match r {
            Ok(v) => filter_spec(steps_view(steps@), trigger_view(trigger))
                == Ok::<Seq<StepView>, Seq<char>>(steps_view(v@)),
            Err(e) => filter_spec(steps_view(steps@), trigger_view(trigger))
                == Err::<Seq<StepView>, Seq<char>>(e@),
        },
{
    let ghost tr = trigger_view(trigger);
    let mut out: Vec<Step> = Vec::new();
    let mut i: usize = 0;
    assert(steps_view(steps@).take(0).len() == 0);
    assert(steps_view(out@) =~= Seq::<StepView>::empty());
    while i < steps.len()
        invariant
            i <= steps@.len(),
            tr == trigger_view(trigger),
            filter_spec(steps_view(steps@).take(i as int), tr) == Ok::<Seq<StepView>, Seq<char>>(
                steps_view(out@),
            ),
        decreases steps.len() - i,
    {
        let step = &steps[i];
        proof {
            assert(steps_view(steps@).take(i + 1).drop_last() =~= steps_view(steps@).take(i as int));
            assert(steps_view(steps@).take(i + 1).last() == step@);
        }
        match step_run_form(step, trigger) {
            Err(e) => {
                proof {
                    lemma_filter_prefix_err(steps_view(steps@), tr, i as int + 1);
                }
                return Err(e);
            },
            Ok(None) => {},
            Ok(Some(s)) => {
                let ghost before = steps_view(out@);
                out.push(s);
                assert(steps_view(out@) =~= before.push(s@));
            },
        }
        i = i + 1;
    }
    assert(steps_view(steps@).take(steps@.len() as int) =~= steps_view(steps@));
    Ok(out)
}

/// Once a prefix of the steps fails, the whole list fails with that error.
proof fn lemma_filter_prefix_err(
    steps: Seq<StepView>,
    trigger: Option<Seq<Seq<char>>>,
    k: int,
)
    requires
        0 <= k <= steps.len(),
        filter_spec(steps.take(k), trigger) is Err,
    ensures
        filter_spec(steps, trigger) == filter_spec(steps.take(k), trigger),
    decreases steps.len() - k,
{
    if k < steps.len() {
        assert(steps.take(k + 1).drop_last() =~= steps.take(k));
        lemma_filter_prefix_err(steps, trigger, k + 1);
    } else {
        assert(steps.take(k) =~= steps);
    }
}

/// One step's outcome (see `step_outcome`).
fn step_run_form(step: &Step, trigger: Option<&[String]>) -> (r: Result<Option<Step>, String>)
    ensures
        match r {
            Ok(Some(s)) => step_outcome(step@, trigger_view(trigger))
                == Ok::<Option<StepView>, Seq<char>>(Some(s@)),
            Ok(None) => step_outcome(step@, trigger_view(trigger))
                == Ok::<Option<StepView>, Seq<char>>(None),
            Err(e) => step_outcome(step@, trigger_view(trigger))
                == Err::<Option<StepView>, Seq<char>>(e@),
        },
{
    match trigger {
        None => {
            let empty: Vec<String> = Vec::new();
            let s = templated_step(step, &empty);
            assert(strings_view(empty@) =~= seq![]);
            Ok(Some(s))
        },
        Some(paths) => {
            if step.if_changed.len() > 0 {
                match first_glob_error(&step.if_changed) {
                    Some((k, err)) => {
                        let mut msg = String::new();
                        push_str(&mut msg, "step `");
                        push_str(&mut msg, step.name.as_str());
                        push_str(&mut msg, "`: invalid glob `");
                        push_str(&mut msg, step.if_changed[k].as_str());
                        push_str(&mut msg, "`: ");
                        push_str(&mut msg, err.as_str());
                        return Err(msg);
                    },
                    None => {},
                }
                proof {
                    lemma_first_bad_glob(strings_view(step.if_changed@));
                }
                assert forall|j: int| 0 <= j < step.if_changed@.len() implies glob_error(
                    #[trigger] step.if_changed@[j]@,
                ) is None by {
                    assert(strings_view(step.if_changed@)[j] == step.if_changed@[j]@);
                }
                match glob_set_build_error(&step.if_changed) {
                    Some(err) => {
                        let mut msg = String::new();
                        push_str(&mut msg, "step `");
                        push_str(&mut msg, step.name.as_str());
                        push_str(&mut msg, "`: building globset: ");
                        push_str(&mut msg, err.as_str());
                        return Err(msg);
                    },
                    None => {},
                }
            }
            let m = matched_for(step, paths);
            if step.if_changed.len() == 0 || m.len() > 0 {
                Ok(Some(templated_step(step, &m)))
            } else {
                Ok(None)
            }
        },
    }
}

/// The first pattern that does not compile, with its error text.
fn first_glob_error(patterns: &Vec<String>) -> (r: Option<(usize, String)>)
    ensures
        match r {
            Some((k, e)) => k < patterns@.len() && first_bad_glob(strings_view(patterns@)) == Some(k as int)
                && glob_error(patterns@[k as int]@) == Some(e@),
            None => first_bad_glob(strings_view(patterns@)) is None,
        },
{
    let ghost pv = strings_view(patterns@);
    proof {
        lemma_first_bad_glob(pv);
    }
    let mut k: usize = 0;
    while k < patterns.len()
        invariant
            k <= patterns@.len(),
            pv == strings_view(patterns@),
            forall|j: int| 0 <= j < k ==> glob_error(#[trigger] pv[j]) is None,
        decreases patterns.len() - k,
    {
        match glob_parse_error(patterns[k].as_str()) {
            Some(e) => {
                proof {
                    lemma_first_bad_glob(pv);
                    match first_bad_glob(pv) {
                        Some(b) => {
                            if b < k {
                                assert(glob_error(pv[b]) is None);
                            } else if b > k {
                                assert(glob_error(pv[k as int]) is None);
                            }
                        },
                        None => {
                            assert(glob_error(pv[k as int]) is None);
                        },
                    }
                }
                return Some((k, e));
            },
            None => {},
        }
        k = k + 1;
    }
    proof {
        lemma_first_bad_glob(pv);
        if first_bad_glob(pv) is Some {
            let b = first_bad_glob(pv)->0;
            assert(glob_error(pv[b]) is None);
        }
    }
    None
}

/// The trigger paths `step` receives (see `matched_paths`).
fn matched_for(step: &Step, paths: &[String]) -> (m: Vec<String>)
    requires
        step.if_changed@.len() > 0 ==> first_bad_glob(strings_view(step.if_changed@)) is None,
        step.if_changed@.len() > 0 ==> glob_set_error(strings_view(step.if_changed@)) is None,
    ensures
        strings_view(m@) == matched_paths(step@, strings_view(paths@)),
{
    let ghost pv = strings_view(paths@);
    if step.if_changed.len() == 0 {
        let mut m: Vec<String> = Vec::new();
        let mut i: usize = 0;
        while i < paths.len()
            invariant
                i <= paths@.len(),
                pv == strings_view(paths@),
                strings_view(m@) == pv.take(i as int),
            decreases paths.len() - i,
        {
            let ghost before = strings_view(m@);
            let c = paths[i].clone();
            m.push(c);
            i = i + 1;
            assert(pv.take(i as int) =~= pv.take(i - 1).push(pv[i - 1]));
            assert(strings_view(m@) =~= before.push(c@));
        }
        assert(pv.take(pv.len() as int) =~= pv);
        m
    } else {
        proof {
            lemma_first_bad_glob(strings_view(step.if_changed@));
        }
        assert forall|j: int| 0 <= j < step.if_changed@.len() implies glob_error(#[trigger] step.if_changed@[j]@) is None by {
            assert(strings_view(step.if_changed@)[j] == step.if_changed@[j]@);
        }
        let ghost pred = |p: Seq<char>| glob_set_matches(strings_view(step.if_changed@), p);
        let mut m: Vec<String> = Vec::new();
        let mut i: usize = 0;
        while i < paths.len()
            invariant
                i <= paths@.len(),
                pv == strings_view(paths@),
                pred == (|p: Seq<char>| glob_set_matches(strings_view(step.if_changed@), p)),
                glob_set_error(strings_view(step.if_changed@)) is None,
                forall|j: int| 0 <= j < step.if_changed@.len() ==> glob_error(#[trigger] step.if_changed@[j]@) is None,
                strings_view(m@) == pv.take(i as int).filter(pred),
            decreases paths.len() - i,
        {
            proof {
                pv.take(i as int).lemma_filter_push(pv[i as int], pred);
                assert(pv.take(i + 1) =~= pv.take(i as int).push(pv[i as int]));
            }
            assert forall|j: int| 0 <= j < step.if_changed@.len() implies glob_error(#[trigger] step.if_changed@[j]@) is None by {
                assert(strings_view(step.if_changed@)[j] == step.if_changed@[j]@);
            }
            if glob_set_is_match(&step.if_changed, paths[i].as_str()) {
                let ghost before = strings_view(m@);
                let c = paths[i].clone();
                m.push(c);
                assert(strings_view(m@) =~= before.push(pv[i as int]));
            }
            i = i + 1;
        }
        assert(pv.take(pv.len() as int) =~= pv);
        m
    }
}

/// `step` with `{files}` substituted by `paths` when its `cmd` mentions it.
fn templated_step(step: &Step, paths: &Vec<String>) -> (s: Step)
    ensures
        s@ == templated(step@, strings_view(paths@)),
{
    let cmd = chars_of(step.cmd.as_str());
    let token = chars_of("{files}");
    let new_cmd = if contains_chars(&cmd, &token) {
        let joined = quoted_list(paths);
        let jc = chars_of(joined.as_str());
        proof {
            reveal_strlit("{files}");
        }
        let replaced = replace_all_chars(&cmd, &token, &jc);
        string_of(&replaced)
    } else {
        step.cmd.clone()
    };
    Step {
        name: step.name.clone(),
        cmd: new_cmd,
        parallel: step.parallel,
        if_changed: copy_strings(&step.if_changed),
    }
}

/// The shell-quoted paths joined by single spaces.
fn quoted_list(paths: &Vec<String>) -> (s: String)
    ensures
        s@ == join(strings_view(paths@).map_values(|p: Seq<char>| quote_spec(p)), " "@),
{
    let ghost q = strings_view(paths@).map_values(|p: Seq<char>| quote_spec(p));
    let mut s = String::new();
    let mut i: usize = 0;
    while i < paths.len()
        invariant
            i <= paths@.len(),
            q == strings_view(paths@).map_values(|p: Seq<char>| quote_spec(p)),
            s@ == join(q.take(i as int), " "@),
        decreases paths.len() - i,
    {
        proof {
            assert(q.take(i + 1).drop_last() =~= q.take(i as int));
            assert(q.take(i + 1).last() == quote_spec(paths@[i as int]@));
        }
        if i > 0 {
            push_str(&mut s, " ");
        } else {
            assert(q.take(i + 1).len() == 1);
            assert(s@ == Seq::<char>::empty());
        }
        let quoted = quote(paths[i].as_str());
        push_str(&mut s, quoted.as_str());
        i = i + 1;
        proof {
            if i == 1 {
                assert(s@ =~= q.take(i as int)[0]);
            }
        }
    }
    assert(q.take(q.len() as int) =~= q);
    s
}


// ── Laws ────────────────────────────────────────────────────────────────────

/// Whether a step runs on a file change with these paths: it has no
/// `if_changed`, or one of the paths matches.
pub open spec fn runs_on(step: StepView, paths: Seq<Seq<char>>) -> bool {
    step.if_changed.len() == 0 || matched_paths(step, paths).len() > 0
}

/// On the initial run (no trigger) every step runs, in order, whatever its
/// `if_changed`, with `{files}` empty.
pub proof fn law_initial_run_runs_every_step(steps: Seq<StepView>)
    ensures
        filter_spec(steps, None) == Ok::<Seq<StepView>, Seq<char>>(
            steps.map_values(|s: StepView| templated(s, seq![])),
        ),
    decreases steps.len(),
{
    if steps.len() > 0 {
        law_initial_run_runs_every_step(steps.drop_last());
        assert(steps.map_values(|s: StepView| templated(s, seq![])) =~= steps.drop_last().map_values(
            |s: StepView| templated(s, seq![]),
        ).push(templated(steps.last(), seq![])));
    } else {
        assert(steps.map_values(|s: StepView| templated(s, seq![])) =~= Seq::<StepView>::empty());
    }
}

/// The steps a file change runs: those that match a changed path (or have
/// no `if_changed`), in order, each with `{files}` set to its matched
/// paths.
pub open spec fn file_change_run(steps: Seq<StepView>, paths: Seq<Seq<char>>) -> Seq<StepView>
    decreases steps.len(),
{
    if steps.len() == 0 {
        seq![]
    } else {
        file_change_run(steps.drop_last(), paths) + if runs_on(steps.last(), paths) {
            seq![templated(steps.last(), matched_paths(steps.last(), paths))]
        } else {
            seq![]
        }
    }
}

/// On a file change, with no invalid glob and no glob set that fails to
/// build among the steps that have patterns, exactly the steps that match a changed path (or have no
/// `if_changed`) run, in their order, each with `{files}` set to its
/// matched paths.
pub proof fn law_file_change_runs_matching_steps(steps: Seq<StepView>, paths: Seq<Seq<char>>)
    requires
        forall|i: int|
            0 <= i < steps.len() && (#[trigger] steps[i]).if_changed.len() > 0 ==> first_bad_glob(
                steps[i].if_changed,
            ) is None && glob_set_error(steps[i].if_changed) is None,
    ensures
        filter_spec(steps, Some(paths)) == Ok::<Seq<StepView>, Seq<char>>(
            file_change_run(steps, paths),
        ),
    decreases steps.len(),
{
    if steps.len() > 0 {
        let init = steps.drop_last();
        assert forall|i: int|
            0 <= i < init.len() && (#[trigger] init[i]).if_changed.len() > 0 implies first_bad_glob(
            init[i].if_changed,
        ) is None && glob_set_error(init[i].if_changed) is None by {
            assert(init[i] == steps[i]);
        }
        law_file_change_runs_matching_steps(init, paths);
        assert(steps.last() == steps[steps.len() - 1]);
        let kept = file_change_run(init, paths);
        let last = steps.last();
        if runs_on(last, paths) {
            assert(kept + seq![templated(last, matched_paths(last, paths))] =~= kept.push(
                templated(last, matched_paths(last, paths)),
            ));
        } else {
            assert(kept + Seq::<StepView>::empty() =~= kept);
        }
    }
}

/// Whether a step fails a file-change run: it has patterns and one of them
/// does not compile, or its glob set does not build.
pub open spec fn step_fails(s: StepView) -> bool {
    s.if_changed.len() > 0 && (first_bad_glob(s.if_changed) is Some || glob_set_error(
        s.if_changed,
    ) is Some)
}

/// The error a failing step reports.
pub open spec fn step_error(s: StepView) -> Seq<char> {
    if first_bad_glob(s.if_changed) is Some {
        bad_glob_message(s.name, s.if_changed[first_bad_glob(s.if_changed)->0])
    } else {
        set_build_message(s.name, glob_set_error(s.if_changed)->0)
    }
}

/// Filtering fails only on a file change, and then exactly when some step's
/// globs fail; the error is that of the first such step. On the initial run
/// no glob is compiled and filtering always succeeds.
pub proof fn law_filter_fails_iff_a_glob_fails(steps: Seq<StepView>, paths: Seq<Seq<char>>)
    ensures
        filter_spec(steps, None) is Ok,
        filter_spec(steps, Some(paths)) is Err <==> exists|i: int|
            0 <= i < steps.len() && step_fails(#[trigger] steps[i]),
        filter_spec(steps, Some(paths)) matches Err(e) ==> exists|i: int|
            0 <= i < steps.len() && step_fails(#[trigger] steps[i]) && e == step_error(steps[i])
                && forall|j: int| 0 <= j < i ==> !step_fails(#[trigger] steps[j]),
    decreases steps.len(),
{
    law_initial_run_runs_every_step(steps);
    if steps.len() > 0 {
        let init = steps.drop_last();
        law_filter_fails_iff_a_glob_fails(init, paths);
        let last = steps.last();
        assert(last == steps[steps.len() - 1]);
        assert forall|i: int| 0 <= i < init.len() implies init[i] == steps[i] by {}
        match filter_spec(init, Some(paths)) {
            Err(e) => {
                let i = choose|i: int|
                    0 <= i < init.len() && step_fails(#[trigger] init[i]) && e == step_error(init[i])
                        && forall|j: int| 0 <= j < i ==> !step_fails(#[trigger] init[j]);
                assert(step_fails(steps[i]));
                assert forall|j: int| 0 <= j < i implies !step_fails(#[trigger] steps[j]) by {
                    assert(steps[j] == init[j]);
                }
            },
            Ok(_) => {
                assert forall|i: int| 0 <= i < init.len() implies !step_fails(#[trigger] steps[i]) by {
                    assert(steps[i] == init[i]);
                }
                if step_fails(last) {
                    assert(step_fails(steps[steps.len() - 1]));
                } else {
                    assert forall|i: int| 0 <= i < steps.len() implies !step_fails(#[trigger] steps[i]) by {
                        if i < init.len() {
                            assert(steps[i] == init[i]);
                        }
                    }
                }
            },
        }
    }
}

/// `b` is `a` with at most its command changed.
pub open spec fn same_but_cmd(a: StepView, b: StepView) -> bool {
    a.name == b.name && a.parallel == b.parallel && a.if_changed == b.if_changed
}

/// `v` is drawn, in order, from `steps` by the indices `idx`, each entry
/// keeping its source step's name, `parallel` flag and `if_changed`, and
/// its command unless that command mentions `{files}`.
pub open spec fn drawn_from(v: Seq<StepView>, steps: Seq<StepView>, idx: Seq<int>) -> bool {
    &&& idx.len() == v.len()
    &&& forall|i: int| 0 <= i < idx.len() ==> 0 <= #[trigger] idx[i] < steps.len()
    &&& forall|i: int, j: int| 0 <= i < j < idx.len() ==> #[trigger] idx[i] < #[trigger] idx[j]
    &&& forall|i: int|
        0 <= i < idx.len() ==> same_but_cmd(steps[idx[i]], #[trigger] v[i]) && (v[i].cmd
            == steps[idx[i]].cmd || contains(steps[idx[i]].cmd, files_token()))
}

proof fn lemma_outcome_changes_only_cmd(step: StepView, trigger: Option<Seq<Seq<char>>>)
    ensures
        step_outcome(step, trigger) matches Ok(Some(s)) ==> same_but_cmd(step, s) && (s.cmd
            == step.cmd || contains(step.cmd, files_token())),
{
}

/// Filtering and templating only choose steps and rewrite `{files}` in
/// their commands: every step that runs is one of the configured steps, in
/// configuration order, with the same name, the same `parallel` flag (so
/// stages group as configured) and the same `if_changed`, and a command
/// without `{files}` is left as it is.
pub proof fn law_filter_changes_only_cmd(steps: Seq<StepView>, trigger: Option<Seq<Seq<char>>>)
    ensures
        filter_spec(steps, trigger) is Ok ==> exists|idx: Seq<int>|
            #[trigger] drawn_from(filter_spec(steps, trigger)->Ok_0, steps, idx),
    decreases steps.len(),
{
    if steps.len() > 0 {
        let init = steps.drop_last();
        law_filter_changes_only_cmd(init, trigger);
        lemma_outcome_changes_only_cmd(steps.last(), trigger);
        match filter_spec(init, trigger) {
            Ok(kept) => {
                let idx = choose|idx: Seq<int>| drawn_from(kept, init, idx);
                assert forall|i: int| 0 <= i < idx.len() implies steps[idx[i]] == init[idx[i]] by {}
                match step_outcome(steps.last(), trigger) {
                    Ok(Some(s)) => {
                        let v = kept.push(s);
                        let n = steps.len() - 1;
                        let idx2 = idx.push(n);
                        assert(steps[n] == steps.last());
                        assert forall|i: int| 0 <= i < idx2.len() implies 0 <= #[trigger] idx2[i] < steps.len() by {
                            if i < idx.len() {
                                assert(idx2[i] == idx[i]);
                            }
                        }
                        assert forall|i: int, j: int| 0 <= i < j < idx2.len() implies #[trigger] idx2[i]
                            < #[trigger] idx2[j] by {
                            assert(idx2[i] == idx[i]);
                            if j < idx.len() {
                                assert(idx2[j] == idx[j]);
                            }
                        }
                        assert forall|i: int| 0 <= i < idx2.len() implies same_but_cmd(steps[idx2[i]], #[trigger] v[i])
                            && (v[i].cmd == steps[idx2[i]].cmd || contains(steps[idx2[i]].cmd, files_token())) by {
                            if i < idx.len() {
                                assert(idx2[i] == idx[i] && v[i] == kept[i]);
                            }
                        }
                        assert(drawn_from(v, steps, idx2));
                        assert(filter_spec(steps, trigger) == Ok::<Seq<StepView>, Seq<char>>(v));
                        assert(filter_spec(steps, trigger)->Ok_0 == v);
                        assert(drawn_from(filter_spec(steps, trigger)->Ok_0, steps, idx2));
                        assert(exists|q: Seq<int>| #[trigger] drawn_from(filter_spec(steps, trigger)->Ok_0, steps, q));
                    },
                    Ok(None) => {
                        assert(drawn_from(kept, steps, idx));
                        assert(filter_spec(steps, trigger) == Ok::<Seq<StepView>, Seq<char>>(kept));
                        assert(exists|q: Seq<int>| #[trigger] drawn_from(filter_spec(steps, trigger)->Ok_0, steps, q));
                    },
                    Err(_) => {
                        assert(filter_spec(steps, trigger) is Err);
                    },
                }
            },
            Err(_) => {
                assert(filter_spec(steps, trigger) is Err);
            },
        }
    } else {
        let e: Seq<int> = seq![];
        assert(drawn_from(seq![], steps, e));
        assert(filter_spec(steps, trigger) == Ok::<Seq<StepView>, Seq<char>>(seq![]));
        assert(filter_spec(steps, trigger)->Ok_0 == Seq::<StepView>::empty());
        assert(drawn_from(filter_spec(steps, trigger)->Ok_0, steps, e));
        assert(exists|q: Seq<int>| #[trigger] drawn_from(filter_spec(steps, trigger)->Ok_0, steps, q));
    }
}

} // verus!
