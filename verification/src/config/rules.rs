//! The validation rules stated directly, and what `validate` reports
//! against them: a configuration passes exactly when it keeps every rule,
//! and each broken rule is reported once.
use vstd::prelude::*;

use crate::config::schema::StepView;
use crate::config::validate::{
    cmd_errors, config_errors, glob_errors, hook_errors, is_step_name, member_errors,
    name_errors, name_taken, profile_errors, profiles_errors, step_errors, steps_errors,
};
use crate::glob::glob_error;
use crate::shell::shell_split;
use crate::text::is_blank;

verus! {

// ── The rules ───────────────────────────────────────────────────────────────

/// A step with a name, a `cmd` that splits into words, and valid globs.
pub open spec fn step_ok(s: StepView) -> bool {
    &&& !is_blank(s.name)
    &&& !is_blank(s.cmd)
    &&& shell_split(s.cmd) is Some
    &&& forall|k: int| 0 <= k < s.if_changed.len() ==> glob_error(#[trigger] s.if_changed[k]) is None
}

/// A profile with a name and members that are all steps.
pub open spec fn profile_ok(steps: Seq<StepView>, p: (Seq<char>, Seq<Seq<char>>)) -> bool {
    &&& !is_blank(p.0)
    &&& p.1.len() > 0
    &&& forall|m: int| 0 <= m < p.1.len() ==> is_step_name(steps, #[trigger] p.1[m])
}

/// A hook that is off, or has a `cmd` that splits and a positive timeout.
pub open spec fn hook_ok(enabled: bool, cmd: Seq<char>, timeout: u64) -> bool {
    enabled ==> !is_blank(cmd) && shell_split(cmd) is Some && timeout > 0
}

/// A configuration inside every rule: at least one step, every step well
/// made, step names distinct, a debounce of at least 50 ms, every profile
/// well made, and a usable hook.
pub open spec fn well_formed(
    steps: Seq<StepView>,
    debounce_ms: u64,
    profiles: Seq<(Seq<char>, Seq<Seq<char>>)>,
    hook_enabled: bool,
    hook_cmd: Seq<char>,
    hook_timeout: u64,
) -> bool {
    &&& steps.len() > 0
    &&& forall|i: int| 0 <= i < steps.len() ==> step_ok(#[trigger] steps[i])
    &&& forall|i: int, j: int| 0 <= i < j < steps.len() ==> steps[i].name != steps[j].name
    &&& debounce_ms >= 50
    &&& forall|p: int| 0 <= p < profiles.len() ==> profile_ok(steps, #[trigger] profiles[p])
    &&& hook_ok(hook_enabled, hook_cmd, hook_timeout)
}

// ── Lemmas ──────────────────────────────────────────────────────────────────

proof fn lemma_glob_errors_empty(step: StepView, i: int, k: int)
    requires
        0 <= k <= step.if_changed.len(),
    ensures
        glob_errors(step, i, k).len() == 0 <==> forall|j: int|
            0 <= j < k ==> glob_error(#[trigger] step.if_changed[j]) is None,
    decreases k,
{
    if k > 0 {
        lemma_glob_errors_empty(step, i, k - 1);
    }
}

proof fn lemma_glob_errors_prefix(a: StepView, b: StepView, i: int, k: int)
    requires
        0 <= k <= a.if_changed.len(),
        k <= b.if_changed.len(),
        a.name == b.name,
        forall|j: int| 0 <= j < k ==> a.if_changed[j] == b.if_changed[j],
    ensures
        glob_errors(a, i, k) == glob_errors(b, i, k),
    decreases k,
{
    if k > 0 {
        lemma_glob_errors_prefix(a, b, i, k - 1);
    }
}

proof fn lemma_member_errors_empty(
    steps: Seq<StepView>,
    profile: Seq<char>,
    members: Seq<Seq<char>>,
    k: int,
)
    requires
        0 <= k <= members.len(),
    ensures
        member_errors(steps, profile, members, k).len() == 0 <==> forall|m: int|
            0 <= m < k ==> is_step_name(steps, #[trigger] members[m]),
    decreases k,
{
    if k > 0 {
        lemma_member_errors_empty(steps, profile, members, k - 1);
    }
}

proof fn lemma_profile_errors_empty(steps: Seq<StepView>, p: (Seq<char>, Seq<Seq<char>>))
    ensures
        profile_errors(steps, p.0, p.1).len() == 0 <==> profile_ok(steps, p),
{
    lemma_member_errors_empty(steps, p.0, p.1, p.1.len() as int);
}

proof fn lemma_profiles_errors_empty(
    steps: Seq<StepView>,
    profiles: Seq<(Seq<char>, Seq<Seq<char>>)>,
    n: int,
)
    requires
        0 <= n <= profiles.len(),
    ensures
        profiles_errors(steps, profiles, n).len() == 0 <==> forall|p: int|
            0 <= p < n ==> profile_ok(steps, #[trigger] profiles[p]),
    decreases n,
{
    if n > 0 {
        lemma_profiles_errors_empty(steps, profiles, n - 1);
        lemma_profile_errors_empty(steps, profiles[n - 1]);
    }
}

proof fn lemma_steps_errors_empty(steps: Seq<StepView>, n: int)
    requires
        0 <= n <= steps.len(),
    ensures
        steps_errors(steps, n).len() == 0 <==> forall|i: int|
            0 <= i < n ==> #[trigger] step_errors(steps, i).len() == 0,
    decreases n,
{
    if n > 0 {
        lemma_steps_errors_empty(steps, n - 1);
    }
}

proof fn lemma_step_errors_empty(steps: Seq<StepView>, i: int)
    requires
        0 <= i < steps.len(),
    ensures
        step_errors(steps, i).len() == 0 <==> step_ok(steps[i]) && !name_taken(steps, i),
{
    lemma_glob_errors_empty(steps[i], i, steps[i].if_changed.len() as int);
}

/// Steps that agree below `k` report the same errors there.
proof fn lemma_steps_errors_prefix(s: Seq<StepView>, t: Seq<StepView>, k: int)
    requires
        0 <= k <= s.len(),
        k <= t.len(),
        forall|j: int| 0 <= j < k ==> s[j] == t[j],
    ensures
        steps_errors(s, k) == steps_errors(t, k),
    decreases k,
{
    if k > 0 {
        lemma_steps_errors_prefix(s, t, k - 1);
        let i = k - 1;
        assert(name_taken(s, i) == name_taken(t, i)) by {
            if name_taken(s, i) {
                let j = choose|j: int| 0 <= j < i && !is_blank(s[j].name) && #[trigger] s[j].name == s[i].name;
                assert(!is_blank(t[j].name) && t[j].name == t[i].name);
            }
            if name_taken(t, i) {
                let j = choose|j: int| 0 <= j < i && !is_blank(t[j].name) && #[trigger] t[j].name == t[i].name;
                assert(!is_blank(s[j].name) && s[j].name == s[i].name);
            }
        }
    }
}

proof fn lemma_profiles_errors_prefix(
    steps: Seq<StepView>,
    a: Seq<(Seq<char>, Seq<Seq<char>>)>,
    b: Seq<(Seq<char>, Seq<Seq<char>>)>,
    n: int,
)
    requires
        0 <= n <= a.len(),
        n <= b.len(),
        forall|p: int| 0 <= p < n ==> a[p] == b[p],
    ensures
        profiles_errors(steps, a, n) == profiles_errors(steps, b, n),
    decreases n,
{
    if n > 0 {
        lemma_profiles_errors_prefix(steps, a, b, n - 1);
    }
}

/// With non-blank names, no step reuses an earlier name exactly when the
/// names are distinct.
proof fn lemma_names_distinct(steps: Seq<StepView>)
    requires
        forall|i: int| 0 <= i < steps.len() ==> !is_blank(#[trigger] steps[i].name),
    ensures
        (forall|i: int| 0 <= i < steps.len() ==> !#[trigger] name_taken(steps, i)) <==> (forall|
            i: int,
            j: int,
        | 0 <= i < j < steps.len() ==> steps[i].name != steps[j].name),
{
    if forall|i: int| 0 <= i < steps.len() ==> !#[trigger] name_taken(steps, i) {
        assert forall|i: int, j: int| 0 <= i < j < steps.len() implies steps[i].name
            != steps[j].name by {
            if steps[i].name == steps[j].name {
                assert(!is_blank(steps[i].name));
                assert(name_taken(steps, j));
            }
        }
    }
    if forall|i: int, j: int| 0 <= i < j < steps.len() ==> steps[i].name != steps[j].name {
        assert forall|i: int| 0 <= i < steps.len() implies !#[trigger] name_taken(steps, i) by {
            if name_taken(steps, i) {
                let j = choose|j: int|
                    0 <= j < i && !is_blank(steps[j].name) && #[trigger] steps[j].name
                        == steps[i].name;
                assert(steps[j].name != steps[i].name);
            }
        }
    }
}

// ── Laws ────────────────────────────────────────────────────────────────────

/// A configuration is accepted exactly when it keeps every rule: no
/// configuration inside the rules is rejected, and none outside them is
/// accepted.
pub proof fn law_valid_iff_well_formed(
    steps: Seq<StepView>,
    debounce_ms: u64,
    profiles: Seq<(Seq<char>, Seq<Seq<char>>)>,
    hook_enabled: bool,
    hook_cmd: Seq<char>,
    hook_timeout: u64,
)
    ensures
        config_errors(steps, debounce_ms, profiles, hook_enabled, hook_cmd, hook_timeout).len()
            == 0 <==> well_formed(
            steps,
            debounce_ms,
            profiles,
            hook_enabled,
            hook_cmd,
            hook_timeout,
        ),
{
    let n = steps.len() as int;
    lemma_steps_errors_empty(steps, n);
    lemma_profiles_errors_empty(steps, profiles, profiles.len() as int);
    assert forall|i: int| 0 <= i < n implies (#[trigger] step_errors(steps, i).len() == 0
        <==> step_ok(steps[i]) && !name_taken(steps, i)) by {
        lemma_step_errors_empty(steps, i);
    }
    let all_ok = forall|i: int| 0 <= i < n ==> step_ok(#[trigger] steps[i]);
    if all_ok {
        assert forall|i: int| 0 <= i < n implies !is_blank(#[trigger] steps[i].name) by {
            assert(step_ok(steps[i]));
        }
        lemma_names_distinct(steps);
    }
    if steps_errors(steps, n).len() == 0 {
        assert forall|i: int| 0 <= i < n implies step_ok(#[trigger] steps[i]) by {
            assert(step_errors(steps, i).len() == 0);
        }
        assert forall|i: int| 0 <= i < n implies !#[trigger] name_taken(steps, i) by {
            assert(step_errors(steps, i).len() == 0);
        }
    }
    if well_formed(steps, debounce_ms, profiles, hook_enabled, hook_cmd, hook_timeout) {
        assert forall|i: int| 0 <= i < n implies #[trigger] step_errors(steps, i).len() == 0 by {
            assert(step_ok(steps[i]));
            assert(!name_taken(steps, i));
        }
    }
}

/// A well-formed configuration with some of these faults injected reports
/// exactly one error per fault, all of them together: a step appended
/// under the first step's name, the first step's `cmd` blanked, a bad glob
/// added to the first step, a debounce under 50 ms, and a profile naming a
/// step that does not exist.
pub proof fn law_faults_reported_one_each(
    steps: Seq<StepView>,
    debounce_ms: u64,
    profiles: Seq<(Seq<char>, Seq<Seq<char>>)>,
    hook_enabled: bool,
    hook_cmd: Seq<char>,
    hook_timeout: u64,
    dup_cmd: Option<Seq<char>>,
    blank_cmd: Option<Seq<char>>,
    bad_glob: Option<Seq<char>>,
    tiny_debounce: Option<u64>,
    ghost_profile: Option<(Seq<char>, Seq<char>)>,
)
    requires
        well_formed(steps, debounce_ms, profiles, hook_enabled, hook_cmd, hook_timeout),
        dup_cmd matches Some(c) ==> !is_blank(c) && shell_split(c) is Some,
        blank_cmd matches Some(b) ==> is_blank(b),
        bad_glob matches Some(g) ==> glob_error(g) is Some,
        tiny_debounce matches Some(d) ==> d < 50,
        ghost_profile matches Some(gp) ==> !is_blank(gp.0) && !is_step_name(steps, gp.1),
    ensures
        ({
            let first = steps[0];
            let first2 = StepView {
                cmd: match blank_cmd {
                    Some(b) => b,
                    None => first.cmd,
                },
                if_changed: match bad_glob {
                    Some(g) => first.if_changed.push(g),
                    None => first.if_changed,
                },
                ..first
            };
            let updated = steps.update(0, first2);
            let steps2 = match dup_cmd {
                Some(c) => updated.push(
                    StepView { name: first.name, cmd: c, parallel: false, if_changed: seq![] },
                ),
                None => updated,
            };
            let debounce2 = match tiny_debounce {
                Some(d) => d,
                None => debounce_ms,
            };
            let profiles2 = match ghost_profile {
                Some(gp) => profiles.push((gp.0, seq![gp.1])),
                None => profiles,
            };
            config_errors(steps2, debounce2, profiles2, hook_enabled, hook_cmd, hook_timeout).len()
                == (if dup_cmd is Some {
                1int
            } else {
                0
            }) + (if blank_cmd is Some {
                1int
            } else {
                0
            }) + (if bad_glob is Some {
                1int
            } else {
                0
            }) + (if tiny_debounce is Some {
                1int
            } else {
                0
            }) + (if ghost_profile is Some {
                1int
            } else {
                0
            })
        }),
{
    let n = steps.len() as int;
    let first = steps[0];
    let first2 = StepView {
        cmd: match blank_cmd {
            Some(b) => b,
            None => first.cmd,
        },
        if_changed: match bad_glob {
            Some(g) => first.if_changed.push(g),
            None => first.if_changed,
        },
        ..first
    };
    let updated = steps.update(0, first2);
    let steps2 = match dup_cmd {
        Some(c) => updated.push(
            StepView { name: first.name, cmd: c, parallel: false, if_changed: seq![] },
        ),
        None => updated,
    };
    let profiles2 = match ghost_profile {
        Some(gp) => profiles.push((gp.0, seq![gp.1])),
        None => profiles,
    };
    assert(step_ok(first));

    // The names are those of the given steps.
    assert forall|m: Seq<char>| is_step_name(steps2, m) <==> is_step_name(steps, m) by {
        if is_step_name(steps, m) {
            let j = choose|j: int| 0 <= j < steps.len() && #[trigger] steps[j].name == m;
            assert(steps2[j].name == m);
        }
        if is_step_name(steps2, m) {
            let j = choose|j: int| 0 <= j < steps2.len() && #[trigger] steps2[j].name == m;
            if j < n {
                assert(steps[j].name == m);
            } else {
                assert(steps[0].name == m);
            }
        }
    }

    // The first step reports its blanked `cmd` and its bad glob.
    let k0 = first.if_changed.len() as int;
    lemma_glob_errors_prefix(first2, first, 0, k0);
    lemma_glob_errors_empty(first, 0, k0);
    assert(step_errors(steps2, 0).len() == (if blank_cmd is Some {
        1int
    } else {
        0
    }) + (if bad_glob is Some {
        1int
    } else {
        0
    })) by {
        assert(steps2[0] == first2);
        assert(name_errors(steps2, 0).len() == 0);
        assert(cmd_errors(first2, 0).len() == (if blank_cmd is Some {
            1int
        } else {
            0
        }));
        if bad_glob is Some {
            assert(glob_errors(first2, 0, k0 + 1) == glob_errors(first2, 0, k0) + seq![
                crate::config::validate::msg_bad_glob(
                    1,
                    first2.name,
                    first2.if_changed[k0],
                    glob_error(first2.if_changed[k0])->0,
                ),
            ]);
        } else {
            assert(first2.if_changed.len() == k0);
        }
    }

    // The other given steps report nothing.
    assert forall|i: int| 1 <= i < n implies #[trigger] step_errors(steps2, i).len() == 0 by {
        assert(steps2[i] == steps[i]);
        assert(step_ok(steps[i]));
        lemma_step_errors_empty(steps2, i);
        if name_taken(steps2, i) {
            let j = choose|j: int|
                0 <= j < i && !is_blank(steps2[j].name) && #[trigger] steps2[j].name
                    == steps2[i].name;
            assert(steps2[j].name == steps[j].name);
            assert(steps[j].name != steps[i].name);
        }
    }

    // Errors at the given positions: only the first step's.
    lemma_prefix_sum(steps2, n);

    let dup_count: int = if dup_cmd is Some {
        1
    } else {
        0
    };
    assert(steps_errors(steps2, steps2.len() as int).len() == step_errors(steps2, 0).len()
        + dup_count) by {
        if dup_cmd is Some {
            let c = dup_cmd->0;
            assert(steps2.len() == n + 1);
            assert(steps2[n].name == first.name);
            assert(name_taken(steps2, n)) by {
                assert(!is_blank(steps2[0].name) && steps2[0].name == steps2[n].name);
            }
            assert(name_errors(steps2, n).len() == 1);
            assert(cmd_errors(steps2[n], n).len() == 0);
            assert(glob_errors(steps2[n], n, 0).len() == 0);
        }
    }

    // Profiles: the given ones are fine, the added one names a missing
    // step once.
    let np = profiles.len() as int;
    assert(profiles_errors(steps2, profiles2, profiles2.len() as int).len() == (if ghost_profile
        is Some {
        1int
    } else {
        0
    })) by {
        lemma_profiles_errors_prefix(steps2, profiles2, profiles, np);
        assert forall|p: int| 0 <= p < np implies profile_ok(steps2, #[trigger] profiles[p]) by {
            assert(profile_ok(steps, profiles[p]));
            assert forall|m: int| 0 <= m < profiles[p].1.len() implies is_step_name(
                steps2,
                #[trigger] profiles[p].1[m],
            ) by {
                assert(is_step_name(steps, profiles[p].1[m]));
            }
        }
        lemma_profiles_errors_empty(steps2, profiles, np);
        if ghost_profile is Some {
            let gp = ghost_profile->0;
            assert(!is_step_name(steps2, gp.1));
            assert(member_errors(steps2, gp.0, seq![gp.1], 1).len() == 1) by {
                assert(seq![gp.1][0] == gp.1);
                assert(member_errors(steps2, gp.0, seq![gp.1], 0).len() == 0);
            }
            assert(profiles2[np] == (gp.0, seq![gp.1]));
            assert(profile_errors(steps2, gp.0, seq![gp.1]).len() == 1);
        }
    }

    assert(hook_errors(hook_enabled, hook_cmd, hook_timeout).len() == 0);
}

/// Prefix sums of step errors that stop growing after the first step.
proof fn lemma_prefix_sum(steps: Seq<StepView>, n: int)
    requires
        1 <= n <= steps.len(),
        forall|i: int| 1 <= i < n ==> #[trigger] step_errors(steps, i).len() == 0,
    ensures
        steps_errors(steps, n).len() == step_errors(steps, 0).len(),
    decreases n,
{
    if n > 1 {
        lemma_prefix_sum(steps, n - 1);
    } else {
        assert(steps_errors(steps, 0).len() == 0);
    }
}

} // verus!
