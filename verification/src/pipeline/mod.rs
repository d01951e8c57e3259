//! Step grouping: consecutive parallel steps form one stage.
pub mod filter;
pub mod hook;
pub mod run;
pub mod step;

pub use step::StepResult;

use vstd::prelude::*;

use crate::config::schema::{Step, StepView, steps_view};

verus! {

/// A group of steps that execute together as one stage of the pipeline.
#[derive(Debug)]
pub struct Stage<'a> {
    pub steps: Vec<&'a Step>,
}

impl<'a> Stage<'a> {
    pub open spec fn views(&self) -> Seq<StepView> {
        self.steps@.map_values(|s: &Step| s@)
    }

    /// A stage is parallel when it holds more than one step.
    pub fn is_parallel(&self) -> (b: bool)
        ensures
            b == (self.steps@.len() > 1),
    {
        self.steps.len() > 1
    }
}

pub open spec fn stages_views<'a>(stages: Seq<Stage<'a>>) -> Seq<Seq<StepView>> {
    stages.map_values(|s: Stage<'a>| s.views())
}

/// The shape `group_into_stages` guarantees: no stage is empty, a stage of
/// several steps holds only parallel steps, a non-parallel step is alone in
/// its stage, and two neighbouring stages never both hold parallel steps
/// (consecutive parallel steps are always batched together).
pub open spec fn well_staged(stages: Seq<Seq<StepView>>) -> bool {
    &&& forall|k: int| 0 <= k < stages.len() ==> #[trigger] stages[k].len() > 0
    &&& forall|k: int, j: int|
        0 <= k < stages.len() && 0 <= j < stages[k].len() && stages[k].len() > 1
            ==> (#[trigger] stages[k][j]).parallel
    &&& forall|k: int|
        0 <= k && k + 1 < stages.len() ==> !((#[trigger] stages[k]).last().parallel
            && stages[k + 1][0].parallel)
}

proof fn lemma_stage_push(before: Seq<Seq<StepView>>, g: Seq<StepView>)
    requires
        well_staged(before),
        g.len() > 0,
        g.len() > 1 ==> forall|j: int| 0 <= j < g.len() ==> (#[trigger] g[j]).parallel,
        before.len() > 0 && before.last().last().parallel ==> !g[0].parallel,
    ensures
        well_staged(before.push(g)),
{
    let now = before.push(g);
    assert forall|k: int| 0 <= k < now.len() implies #[trigger] now[k].len() > 0 by {
        if k < before.len() {
            assert(now[k] == before[k]);
        }
    }
    assert forall|k: int, j: int|
        0 <= k < now.len() && 0 <= j < now[k].len() && now[k].len() > 1
            implies (#[trigger] now[k][j]).parallel by {
        if k < before.len() {
            assert(now[k] == before[k]);
        }
    }
    assert forall|k: int| 0 <= k && k + 1 < now.len() implies !((#[trigger] now[k]).last().parallel
        && now[k + 1][0].parallel) by {
        if k + 1 < before.len() {
            assert(now[k] == before[k]);
            assert(now[k + 1] == before[k + 1]);
        } else {
            assert(now[k] == before.last());
        }
    }
}

/// Groups steps into stages by consecutive `parallel` flag: each non-parallel
/// step is a stage of its own, and a maximal run of parallel steps is one
/// stage. Step order is kept.
pub fn group_into_stages<'a>(steps: &'a [Step]) -> (stages: Vec<Stage<'a>>)
    ensures
        stages_views(stages@).flatten() == steps_view(steps@),
        well_staged(stages_views(stages@)),
{
    let mut stages: Vec<Stage<'a>> = Vec::new();
    let mut i: usize = 0;
    while i < steps.len()
        invariant
            i <= steps@.len(),
            stages_views(stages@).flatten() == steps_view(steps@).take(i as int),
            well_staged(stages_views(stages@)),
            stages@.len() > 0 && stages_views(stages@).last().last().parallel ==> (i
                == steps@.len() || !steps@[i as int].parallel),
        decreases steps.len() - i,
    {
        let ghost before = stages_views(stages@);
        let start = i;
        let mut group: Vec<&'a Step> = Vec::new();
        group.push(&steps[i]);
        i = i + 1;
        assert(group@.map_values(|s: &Step| s@) =~= steps_view(steps@).subrange(
            start as int,
            i as int,
        ));
        if steps[start].parallel {
            while i < steps.len() && steps[i].parallel
                invariant
                    start < i <= steps@.len(),
                    group@.map_values(|s: &Step| s@) == steps_view(steps@).subrange(
                        start as int,
                        i as int,
                    ),
                    forall|j: int| start <= j < i ==> steps@[j].parallel,
                decreases steps.len() - i,
            {
                let ghost prev = group@;
                group.push(&steps[i]);
                i = i + 1;
                proof {
                    assert(group@ == prev.push(&steps@[i - 1]));
                    assert(steps_view(steps@)[i - 1] == steps@[i - 1]@);
                    assert(group@.map_values(|s: &Step| s@) =~= prev.map_values(|s: &Step| s@).push(
                        steps@[i - 1]@,
                    ));
                    assert(steps_view(steps@).subrange(start as int, i as int) =~= steps_view(
                        steps@,
                    ).subrange(start as int, i - 1).push(steps@[i - 1]@));
                }
            }
        }
        let ghost g = group@.map_values(|s: &Step| s@);
        let stage = Stage { steps: group };
        assert(stage.views() == g);
        stages.push(stage);
        proof {
            assert(stages_views(stages@) =~= before.push(g));
            before.lemma_flatten_push(g);
            assert(steps_view(steps@).take(start as int) + g =~= steps_view(steps@).take(i as int));
            assert forall|j: int| 0 <= j < g.len() implies g[j] == steps@[start + j]@ by {
                assert(g[j] == steps_view(steps@).subrange(start as int, i as int)[j]);
            }
            lemma_stage_push(before, g);
            assert(g.last() == steps@[i - 1]@);
        }
    }
    assert(steps_view(steps@).take(steps@.len() as int) =~= steps_view(steps@));
    stages
}

} // verus!
