//! What a pipeline run decides: which steps take part, and which stages run
//! or are skipped. Stages run in order until one holds a failing step; that
//! stage completes in full and every later stage is skipped.
use vstd::prelude::*;

use crate::config::schema::{Step, StepView, strings_view, steps_view};
use crate::pipeline::filter::{filter_and_template, filter_spec, trigger_view};
use crate::pipeline::step::{StepResult, StepResultView, results_view};
use crate::all_passed;

verus! {

// ── Specification ───────────────────────────────────────────────────────────

/// The steps whose names `only` lists, in their order; all of them when
/// there is no list.
pub open spec fn selected(steps: Seq<StepView>, only: Option<Seq<Seq<char>>>) -> Seq<StepView>
    decreases steps.len(),
{
    match only {
        None => steps,
        Some(names) => if steps.len() == 0 {
            seq![]
        } else {
            selected(steps.drop_last(), only) + if names.contains(steps.last().name) {
                seq![steps.last()]
            } else {
                seq![]
            }
        },
    }
}

/// Narrowing keeps a step exactly when its name equals one of the listed
/// names (not when it merely contains one), in configuration order; with no
/// list every step is kept.
pub proof fn law_selected_keeps_exactly_listed_names(steps: Seq<StepView>, names: Seq<Seq<char>>)
    ensures
        selected(steps, None) == steps,
        selected(steps, Some(names)) == steps.filter(
            |s: StepView| exists|k: int| 0 <= k < names.len() && #[trigger] names[k] == s.name,
        ),
    decreases steps.len(),
{
    reveal(Seq::filter);
    let pred = |s: StepView| exists|k: int| 0 <= k < names.len() && #[trigger] names[k] == s.name;
    if steps.len() == 0 {
        assert(steps.filter(pred) =~= Seq::<StepView>::empty());
    } else {
        law_selected_keeps_exactly_listed_names(steps.drop_last(), names);
        let sub = steps.drop_last().filter(pred);
        let last = steps.last();
        if names.contains(last.name) {
            let k = choose|k: int| 0 <= k < names.len() && names[k] == last.name;
            assert(pred(last));
            assert(steps.filter(pred) == sub.push(last));
            assert(selected(steps, Some(names)) =~= sub.push(last));
        } else {
            assert(!pred(last));
            assert(steps.filter(pred) == sub);
            assert(selected(steps, Some(names)) =~= sub);
        }
    }
}

/// The progress of a run through its stages.
pub struct RunView {
    pub results: Seq<StepResultView>,
    pub skipped: Seq<Seq<char>>,
    pub stage_failed: bool,
}

/// The run after its stages produced `outcomes` (the results of a stage
/// when it runs) and are named `names`: a stage runs while no earlier stage
/// failed, and is skipped after.
pub open spec fn run_through(
    outcomes: Seq<Seq<StepResultView>>,
    names: Seq<Seq<Seq<char>>>,
) -> RunView
    decreases outcomes.len(),
{
    if outcomes.len() == 0 {
        RunView { results: seq![], skipped: seq![], stage_failed: false }
    } else {
        let before = run_through(outcomes.drop_last(), names.take(outcomes.len() - 1));
        if before.stage_failed {
            RunView { skipped: before.skipped + names[outcomes.len() - 1], ..before }
        } else {
            RunView {
                results: before.results + outcomes.last(),
                stage_failed: !all_passed(outcomes.last()),
                ..before
            }
        }
    }
}

/// Index of the first stage whose results hold a failure, or the number of
/// stages.
pub open spec fn first_failing_stage(outcomes: Seq<Seq<StepResultView>>) -> int
    decreases outcomes.len(),
{
    if outcomes.len() == 0 {
        0
    } else {
        let k = first_failing_stage(outcomes.drop_last());
        if k < outcomes.len() - 1 {
            k
        } else if !all_passed(outcomes.last()) {
            outcomes.len() - 1
        } else {
            outcomes.len() as int
        }
    }
}

pub open spec fn flatten<A>(s: Seq<Seq<A>>) -> Seq<A>
    decreases s.len(),
{
    if s.len() == 0 {
        seq![]
    } else {
        flatten(s.drop_last()) + s.last()
    }
}

// ── Laws ────────────────────────────────────────────────────────────────────

proof fn lemma_flatten_take<A>(s: Seq<Seq<A>>, k: int)
    requires
        0 <= k < s.len(),
    ensures
        flatten(s.take(k + 1)) == flatten(s.take(k)) + s[k],
{
    assert(s.take(k + 1).drop_last() =~= s.take(k));
}

proof fn lemma_flatten_skip<A>(s: Seq<Seq<A>>, k: int)
    requires
        0 <= k < s.len(),
    ensures
        flatten(s.take(s.len() - 1).skip(k)) + s.last() == flatten(s.skip(k)),
{
    assert(s.skip(k).drop_last() =~= s.take(s.len() - 1).skip(k));
}

/// Stages run in order until the first stage holding a failing step; that
/// stage completes in full and every later stage is skipped. The results
/// are those of the stages that ran, in order, and the skipped names are
/// those of the later stages, in order.
pub proof fn law_failing_stage_skips_later_stages(
    outcomes: Seq<Seq<StepResultView>>,
    names: Seq<Seq<Seq<char>>>,
)
    requires
        names.len() == outcomes.len(),
    ensures
        ({
            let f = first_failing_stage(outcomes);
            let ran = if f < outcomes.len() {
                f + 1
            } else {
                outcomes.len() as int
            };
            let r = run_through(outcomes, names);
            &&& 0 <= f <= outcomes.len()
            &&& forall|k: int| 0 <= k < f ==> all_passed(#[trigger] outcomes[k])
            &&& (f < outcomes.len() ==> !all_passed(outcomes[f]))
            &&& r.results == flatten(outcomes.take(ran))
            &&& r.skipped == flatten(names.skip(ran))
            &&& r.stage_failed == (f < outcomes.len())
        }),
    decreases outcomes.len(),
{
    let n = outcomes.len() as int;
    if n == 0 {
        assert(outcomes.take(0) =~= outcomes);
        assert(names.skip(0) =~= names);
    } else {
        let init = outcomes.drop_last();
        let ninit = names.take(n - 1);
        law_failing_stage_skips_later_stages(init, ninit);
        let f0 = first_failing_stage(init);
        let f = first_failing_stage(outcomes);
        assert forall|k: int| 0 <= k < f implies all_passed(#[trigger] outcomes[k]) by {
            if k < n - 1 {
                assert(init[k] == outcomes[k]);
            }
        }
        if f0 < n - 1 {
            // The failure happened earlier: this stage is skipped.
            assert(f == f0);
            assert(init.take(f0 + 1) =~= outcomes.take(f0 + 1));
            assert(init[f0] == outcomes[f0]);
            lemma_flatten_skip(names, f0 + 1);
            assert(names.take(n - 1) =~= ninit);
        } else {
            assert(init.take(n - 1) =~= init);
            lemma_flatten_take(outcomes, n - 1);
            assert(outcomes.take(n - 1) =~= init);
            assert(names.skip(n) =~= Seq::<Seq<Seq<char>>>::empty());
            assert(ninit.skip(n - 1) =~= Seq::<Seq<Seq<char>>>::empty());
            assert(outcomes.take(n) =~= outcomes);
        }
    }
}

// ── Executable operations ───────────────────────────────────────────────────

/// The steps named in `only` (all steps without it), in order.
pub fn select_steps(steps: &[Step], only: Option<&[String]>) -> (out: Vec<Step>)
    ensures
        steps_view(out@) == selected(steps_view(steps@), match only {
            Some(v) => Some(strings_view(v@)),
            None => None,
        }),
{
    let ghost sv = steps_view(steps@);
    let ghost ov: Option<Seq<Seq<char>>> = match only {
        Some(v) => Some(strings_view(v@)),
        None => None,
    };
    let mut out: Vec<Step> = Vec::new();
    let mut i: usize = 0;
    proof {
        if only is None {
            assert(sv.take(0) =~= Seq::<StepView>::empty());
        }
    }
    while i < steps.len()
        invariant
            i <= steps@.len(),
            sv == steps_view(steps@),
            ov == (match only {
                Some(v) => Some(strings_view(v@)),
                None => None,
            }),
            steps_view(out@) == selected(sv.take(i as int), ov),
        decreases steps.len() - i,
    {
        let step = &steps[i];
        proof {
            assert(sv.take(i + 1).drop_last() =~= sv.take(i as int));
            assert(sv.take(i + 1).last() == step@);
        }
        let keep = match only {
            None => true,
            Some(names) => {
                let mut found = false;
                let mut j: usize = 0;
                while j < names.len()
                    invariant
                        j <= names@.len(),
                        found == exists|q: int|
                            0 <= q < j && #[trigger] strings_view(names@)[q] == step.name@,
                    decreases names.len() - j,
                {
                    if names[j] == step.name {
                        assert(strings_view(names@)[j as int] == step.name@);
                        found = true;
                    }
                    j = j + 1;
                }
                found
            },
        };
        let ghost before = steps_view(out@);
        if keep {
            out.push(step.duplicate());
            assert(steps_view(out@) =~= before.push(step@));
        }
        proof {
            if only is None {
                assert(sv.take(i + 1) =~= sv.take(i as int).push(step@));
                assert(steps_view(out@) =~= sv.take(i + 1));
            } else if keep {
                assert(steps_view(out@) =~= before + seq![step@]);
            } else {
                assert(steps_view(out@) =~= before + Seq::<StepView>::empty());
            }
        }
        i = i + 1;
    }
    assert(sv.take(i as int) =~= sv);
    out
}

/// The steps a run executes: those named in `only` (all without it), then
/// narrowed by the trigger paths and templated, as `filter_and_template`
/// does.
pub fn plan_steps(steps: &[Step], trigger: Option<&[String]>, only: Option<&[String]>) -> (r:
    Result<Vec<Step>, String>)
    ensures
        ({
            let chosen = selected(steps_view(steps@), match only {
                Some(v) => Some(strings_view(v@)),
                None => None,
            });
            match r {
                Ok(v) => filter_spec(chosen, trigger_view(trigger)) == Ok::<
                    Seq<StepView>,
                    Seq<char>,
                >(steps_view(v@)),
                Err(e) => filter_spec(chosen, trigger_view(trigger)) == Err::<
                    Seq<StepView>,
                    Seq<char>,
                >(e@),
            }
        }),
{
    let chosen = select_steps(steps, only);
    filter_and_template(chosen.as_slice(), trigger)
}

/// A run in progress: the results of the stages that ran, the names of
/// those skipped, and whether a stage has failed.
pub struct PipelineRun {
    pub results: Vec<StepResult>,
    pub skipped: Vec<String>,
    pub stage_failed: bool,
}

impl View for PipelineRun {
    type V = RunView;

    open spec fn view(&self) -> RunView {
        RunView {
            results: results_view(self.results@),
            skipped: strings_view(self.skipped@),
            stage_failed: self.stage_failed,
        }
    }
}

impl PipelineRun {
    /// A run before its first stage.
    pub fn new() -> (r: Self)
        ensures
            r@ == run_through(seq![], seq![]),
    {
        let r = PipelineRun { results: Vec::new(), skipped: Vec::new(), stage_failed: false };
        assert(r@.results =~= Seq::<StepResultView>::empty());
        assert(r@.skipped =~= Seq::<Seq<char>>::empty());
        r
    }

    /// Whether the next stage is to run: no stage has failed yet.
    pub fn should_run(&self) -> (b: bool)
        ensures
            b == !self@.stage_failed,
    {
        !self.stage_failed
    }

    /// Records the results of a stage that ran.
    pub fn record_stage(&mut self, stage_results: Vec<StepResult>)
        requires
            !old(self)@.stage_failed,
        ensures
            final(self)@ == (RunView {
                results: old(self)@.results + results_view(stage_results@),
                stage_failed: !all_passed(results_view(stage_results@)),
                ..old(self)@
            }),
            final(self).results@ == old(self).results@ + stage_results@,
    {
        let failed = !crate::run_passed(stage_results.as_slice());
        let ghost before = results_view(self.results@);
        let mut rest = stage_results;
        let ghost added = results_view(rest@);
        let ghost old_results = self.results@;
        let ghost stage = rest@;
        self.results.append(&mut rest);
        assert(self.results@ =~= old_results + stage);
        assert(results_view(self.results@) =~= before + added);
        self.stage_failed = failed;
    }

    /// Records a stage skipped after a failure.
    pub fn skip_stage(&mut self, names: Vec<String>)
        requires
            old(self)@.stage_failed,
        ensures
            final(self)@ == (RunView {
                skipped: old(self)@.skipped + strings_view(names@),
                ..old(self)@
            }),
            final(self).results@ == old(self).results@,
    {
        let ghost before = strings_view(self.skipped@);
        let mut rest = names;
        let ghost added = strings_view(rest@);
        self.skipped.append(&mut rest);
        assert(strings_view(self.skipped@) =~= before + added);
    }

    /// Takes one stage: records its results when it ran, or its names when
    /// it was skipped (see `run_through`).
    pub fn take_stage(&mut self, ran: Option<Vec<StepResult>>, names: Vec<String>)
        requires
            (ran is Some) == !old(self)@.stage_failed,
        ensures
            final(self)@ == (if old(self)@.stage_failed {
                RunView { skipped: old(self)@.skipped + strings_view(names@), ..old(self)@ }
            } else {
                RunView {
                    results: old(self)@.results + results_view(ran->0@),
                    stage_failed: !all_passed(results_view(ran->0@)),
                    ..old(self)@
                }
            }),
            final(self).results@ == (match ran {
                Some(rs) => old(self).results@ + rs@,
                None => old(self).results@,
            }),
    {
        match ran {
            Some(rs) => self.record_stage(rs),
            None => self.skip_stage(names),
        }
    }
}

} // verus!
