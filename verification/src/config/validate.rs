//! Semantic checks on a parsed configuration. Every problem is reported, in
//! one pass, so the user sees everything broken at once.
use vstd::prelude::*;

use crate::config::schema::{Config, OnFailureConfig, Step, StepView, steps_view, strings_view};
use crate::glob::{glob_error, glob_parse_error};
use crate::shell::{shell_split, split};
use crate::text::{decimal, is_blank, push_str, str_is_blank, u64_to_text};

verus! {

/// Human-readable validation errors, one per problem.
#[derive(Debug)]
pub struct ValidationErrors(pub Vec<String>);

// ── Messages ────────────────────────────────────────────────────────────────

pub open spec fn msg_no_steps() -> Seq<char> {
    "no steps defined — add at least one [[steps]] entry"@
}

pub open spec fn msg_empty_name(idx: nat) -> Seq<char> {
    "step "@ + decimal(idx) + " has an empty `name`"@
}

pub open spec fn msg_duplicate(name: Seq<char>, idx: nat) -> Seq<char> {
    "duplicate step name `"@ + name + "` (step "@ + decimal(idx) + ")"@
}

pub open spec fn msg_empty_cmd(idx: nat, name: Seq<char>) -> Seq<char> {
    "step "@ + decimal(idx) + " (`"@ + name + "`) has an empty `cmd`"@
}

pub open spec fn msg_unparseable_cmd(idx: nat, name: Seq<char>, cmd: Seq<char>) -> Seq<char> {
    "step "@ + decimal(idx) + " (`"@ + name + "`) has an unparseable `cmd`: "@ + cmd
}

pub open spec fn msg_bad_glob(idx: nat, name: Seq<char>, pat: Seq<char>, err: Seq<char>) -> Seq<
    char,
> {
    "step "@ + decimal(idx) + " (`"@ + name + "`) has an invalid if_changed glob `"@ + pat + "`: "@
        + err
}

pub open spec fn msg_debounce(ms: u64) -> Seq<char> {
    "watch.debounce_ms = "@ + decimal(ms as nat) + " is too small; minimum is 50"@
}

pub open spec fn msg_profile_name_empty() -> Seq<char> {
    "profile name is empty"@
}

pub open spec fn msg_profile_no_members(profile: Seq<char>) -> Seq<char> {
    "profile `"@ + profile + "` has no members"@
}

pub open spec fn msg_unknown_member(profile: Seq<char>, member: Seq<char>) -> Seq<char> {
    "profile `"@ + profile + "` references unknown step `"@ + member + "`"@
}

pub open spec fn msg_hook_cmd_empty() -> Seq<char> {
    "on_failure.enabled = true but on_failure.cmd is empty"@
}

pub open spec fn msg_hook_cmd_unparseable(cmd: Seq<char>) -> Seq<char> {
    "on_failure.cmd is unparseable: "@ + cmd
}

pub open spec fn msg_hook_timeout() -> Seq<char> {
    "on_failure.timeout_secs must be > 0"@
}

// ── The rules ───────────────────────────────────────────────────────────────

/// A non-blank step name already used by an earlier step.
pub open spec fn name_taken(steps: Seq<StepView>, i: int) -> bool {
    exists|j: int| 0 <= j < i && !is_blank(steps[j].name) && #[trigger] steps[j].name == steps[i].name
}

pub open spec fn name_errors(steps: Seq<StepView>, i: int) -> Seq<Seq<char>> {
    if is_blank(steps[i].name) {
        seq![msg_empty_name((i + 1) as nat)]
    } else if name_taken(steps, i) {
        seq![msg_duplicate(steps[i].name, (i + 1) as nat)]
    } else {
        seq![]
    }
}

pub open spec fn cmd_errors(step: StepView, i: int) -> Seq<Seq<char>> {
    if is_blank(step.cmd) {
        seq![msg_empty_cmd((i + 1) as nat, step.name)]
    } else if shell_split(step.cmd) is None {
        seq![msg_unparseable_cmd((i + 1) as nat, step.name, step.cmd)]
    } else {
        seq![]
    }
}

/// Errors for the first `k` `if_changed` patterns of a step.
pub open spec fn glob_errors(step: StepView, i: int, k: int) -> Seq<Seq<char>>
    decreases k,
{
    if k <= 0 {
        seq![]
    } else {
        glob_errors(step, i, k - 1) + match glob_error(step.if_changed[k - 1]) {
            Some(e) => seq![msg_bad_glob((i + 1) as nat, step.name, step.if_changed[k - 1], e)],
            None => seq![],
        }
    }
}

pub open spec fn step_errors(steps: Seq<StepView>, i: int) -> Seq<Seq<char>> {
    name_errors(steps, i) + cmd_errors(steps[i], i) + glob_errors(
        steps[i],
        i,
        steps[i].if_changed.len() as int,
    )
}

/// Errors of the first `n` steps.
pub open spec fn steps_errors(steps: Seq<StepView>, n: int) -> Seq<Seq<char>>
    decreases n,
{
    if n <= 0 {
        seq![]
    } else {
        steps_errors(steps, n - 1) + step_errors(steps, n - 1)
    }
}

pub open spec fn is_step_name(steps: Seq<StepView>, name: Seq<char>) -> bool {
    exists|j: int| 0 <= j < steps.len() && #[trigger] steps[j].name == name
}

/// Errors for the first `k` members of a profile.
pub open spec fn member_errors(
    steps: Seq<StepView>,
    profile: Seq<char>,
    members: Seq<Seq<char>>,
    k: int,
) -> Seq<Seq<char>>
    decreases k,
{
    if k <= 0 {
        seq![]
    } else {
        member_errors(steps, profile, members, k - 1) + if is_step_name(steps, members[k - 1]) {
            seq![]
        } else {
            seq![msg_unknown_member(profile, members[k - 1])]
        }
    }
}

pub open spec fn profile_errors(
    steps: Seq<StepView>,
    profile: Seq<char>,
    members: Seq<Seq<char>>,
) -> Seq<Seq<char>> {
    (if is_blank(profile) {
        seq![msg_profile_name_empty()]
    } else {
        seq![]
    }) + (if members.len() == 0 {
        seq![msg_profile_no_members(profile)]
    } else {
        seq![]
    }) + member_errors(steps, profile, members, members.len() as int)
}

pub open spec fn profiles_view(p: Seq<(String, Vec<String>)>) -> Seq<(Seq<char>, Seq<Seq<char>>)> {
    p.map_values(|e: (String, Vec<String>)| (e.0@, strings_view(e.1@)))
}

/// Errors of the first `n` profiles.
pub open spec fn profiles_errors(
    steps: Seq<StepView>,
    profiles: Seq<(Seq<char>, Seq<Seq<char>>)>,
    n: int,
) -> Seq<Seq<char>>
    decreases n,
{
    if n <= 0 {
        seq![]
    } else {
        profiles_errors(steps, profiles, n - 1) + profile_errors(
            steps,
            profiles[n - 1].0,
            profiles[n - 1].1,
        )
    }
}

pub open spec fn hook_errors(enabled: bool, cmd: Seq<char>, timeout_secs: u64) -> Seq<Seq<char>> {
    if enabled {
        (if is_blank(cmd) {
            seq![msg_hook_cmd_empty()]
        } else if shell_split(cmd) is None {
            seq![msg_hook_cmd_unparseable(cmd)]
        } else {
            seq![]
        }) + (if timeout_secs == 0 {
            seq![msg_hook_timeout()]
        } else {
            seq![]
        })
    } else {
        seq![]
    }
}

/// Every error of a configuration, given as its steps, debounce, profiles
/// and hook, in the order they are reported: no steps; each step's name,
/// `cmd` and globs; the debounce; each profile; the hook.
pub open spec fn config_errors(
    steps: Seq<StepView>,
    debounce_ms: u64,
    profiles: Seq<(Seq<char>, Seq<Seq<char>>)>,
    hook_enabled: bool,
    hook_cmd: Seq<char>,
    hook_timeout: u64,
) -> Seq<Seq<char>> {
    (if steps.len() == 0 {
        seq![msg_no_steps()]
    } else {
        seq![]
    }) + steps_errors(steps, steps.len() as int) + (if debounce_ms < 50 {
        seq![msg_debounce(debounce_ms)]
    } else {
        seq![]
    }) + profiles_errors(steps, profiles, profiles.len() as int) + hook_errors(
        hook_enabled,
        hook_cmd,
        hook_timeout,
    )
}

/// Every error of a configuration (see `config_errors`).
pub open spec fn validation_errors(cfg: &Config) -> Seq<Seq<char>> {
    config_errors(
        steps_view(cfg.steps@),
        cfg.watch.debounce_ms,
        profiles_view(cfg.profiles@),
        cfg.on_failure.enabled,
        cfg.on_failure.cmd@,
        cfg.on_failure.timeout_secs,
    )
}

// ── Executable checks ───────────────────────────────────────────────────────

fn push_msg(errs: &mut Vec<String>, m: String)
    ensures
        strings_view(final(errs)@) == strings_view(old(errs)@).push(m@),
{
    errs.push(m);
    assert(strings_view(errs@) =~= strings_view(old(errs)@).push(m@));
}

/// A `String` holding `s`.
fn owned(s: &str) -> (r: String)
    ensures
        r@ == s@,
{
    let mut r = String::new();
    push_str(&mut r, s);
    assert(r@ =~= s@);
    r
}

/// Decimal text of the 1-based step number of index `i`.
fn idx_text(i: usize) -> (s: String)
    requires
        i < usize::MAX,
    ensures
        s@ == decimal((i + 1) as nat),
{
    u64_to_text((i as u64) + 1)
}

fn text_empty_name(idx: &String, i: usize) -> (m: String)
    requires
        idx@ == decimal((i + 1) as nat),
    ensures
        m@ == msg_empty_name((i + 1) as nat),
{
    let mut m = String::new();
    push_str(&mut m, "step ");
    push_str(&mut m, idx.as_str());
    push_str(&mut m, " has an empty `name`");
    assert(m@ =~= msg_empty_name((i + 1) as nat));
    m
}

fn text_duplicate(name: &String, idx: &String, i: usize) -> (m: String)
    requires
        idx@ == decimal((i + 1) as nat),
    ensures
        m@ == msg_duplicate(name@, (i + 1) as nat),
{
    let mut m = String::new();
    push_str(&mut m, "duplicate step name `");
    push_str(&mut m, name.as_str());
    push_str(&mut m, "` (step ");
    push_str(&mut m, idx.as_str());
    push_str(&mut m, ")");
    assert(m@ =~= msg_duplicate(name@, (i + 1) as nat));
    m
}

/// `step <idx> (`<name>`)` then `tail`.
fn text_step_prefixed(idx: &String, name: &String, tail: &str) -> (m: String)
    ensures
        m@ == "step "@ + idx@ + " (`"@ + name@ + tail@,
{
    let mut m = String::new();
    push_str(&mut m, "step ");
    push_str(&mut m, idx.as_str());
    push_str(&mut m, " (`");
    push_str(&mut m, name.as_str());
    push_str(&mut m, tail);
    assert(m@ =~= "step "@ + idx@ + " (`"@ + name@ + tail@);
    m
}

/// Whether an earlier step already uses the non-blank name of step `i`.
fn name_taken_exec(steps: &Vec<Step>, i: usize) -> (b: bool)
    requires
        i < steps@.len(),
    ensures
        b == name_taken(steps_view(steps@), i as int),
{
    let ghost sv = steps_view(steps@);
    let mut j: usize = 0;
    while j < i
        invariant
            i < steps@.len(),
            j <= i,
            sv == steps_view(steps@),
            forall|k: int| 0 <= k < j ==> !(!is_blank(sv[k].name) && sv[k].name == sv[i as int].name),
        decreases i - j,
    {
        if !str_is_blank(steps[j].name.as_str()) && steps[j].name == steps[i].name {
            assert(!is_blank(sv[j as int].name) && #[trigger] sv[j as int].name == sv[i as int].name);
            return true;
        }
        j = j + 1;
    }
    proof {
        if name_taken(sv, i as int) {
            let k = choose|k: int| 0 <= k < i && !is_blank(sv[k].name) && #[trigger] sv[k].name == sv[i as int].name;
            assert(!(!is_blank(sv[k].name) && sv[k].name == sv[i as int].name));
        }
    }
    false
}

/// Appends the errors of step `i`.
fn check_step(steps: &Vec<Step>, i: usize, errs: &mut Vec<String>)
    requires
        i < steps@.len(),
    ensures
        strings_view(final(errs)@) == strings_view(old(errs)@) + step_errors(steps_view(steps@), i as int),
{
    let ghost sv = steps_view(steps@);
    let ghost start = strings_view(errs@);
    let s = &steps[i];
    assert(sv[i as int] == s@);
    let n = steps.len();
    assert(i < n);
    let idx = idx_text(i);
    if str_is_blank(s.name.as_str()) {
        push_msg(errs, text_empty_name(&idx, i));
    } else if name_taken_exec(steps, i) {
        push_msg(errs, text_duplicate(&s.name, &idx, i));
    }
    assert(strings_view(errs@) =~= start + name_errors(sv, i as int));
    let ghost after_name = strings_view(errs@);
    if str_is_blank(s.cmd.as_str()) {
        let m = text_step_prefixed(&idx, &s.name, "`) has an empty `cmd`");
        proof {
            reveal_strlit("`) has an empty `cmd`");
            reveal_strlit("`) has an empty `cmd`");
            assert(m@ =~= msg_empty_cmd((i + 1) as nat, s.name@));
        }
        push_msg(errs, m);
    } else if split(s.cmd.as_str()).is_err() {
        let mut m = text_step_prefixed(&idx, &s.name, "`) has an unparseable `cmd`: ");
        push_str(&mut m, s.cmd.as_str());
        assert(m@ =~= msg_unparseable_cmd((i + 1) as nat, s.name@, s.cmd@));
        push_msg(errs, m);
    }
    assert(strings_view(errs@) =~= after_name + cmd_errors(sv[i as int], i as int));
    let ghost after_cmd = strings_view(errs@);
    let mut k: usize = 0;
    while k < s.if_changed.len()
        invariant
            k <= s.if_changed@.len(),
            sv == steps_view(steps@),
            sv[i as int] == s@,
            i < steps@.len(),
            idx@ == decimal((i + 1) as nat),
            strings_view(errs@) == after_cmd + glob_errors(sv[i as int], i as int, k as int),
        decreases s.if_changed.len() - k,
    {
        let pat = &s.if_changed[k];
        assert(sv[i as int].if_changed[k as int] == pat@);
        let ghost before = strings_view(errs@);
        match glob_parse_error(pat.as_str()) {
            Some(e) => {
                let mut m = text_step_prefixed(&idx, &s.name, "`) has an invalid if_changed glob `");
                push_str(&mut m, pat.as_str());
                push_str(&mut m, "`: ");
                push_str(&mut m, e.as_str());
                assert(m@ =~= msg_bad_glob((i + 1) as nat, s.name@, pat@, e@));
                push_msg(errs, m);
            },
            None => {},
        }
        k = k + 1;
        assert(strings_view(errs@) =~= after_cmd + glob_errors(sv[i as int], i as int, k as int));
    }
    assert(strings_view(errs@) =~= start + step_errors(sv, i as int));
}

/// Whether some step is named `name`.
fn is_step_name_exec(steps: &Vec<Step>, name: &String) -> (b: bool)
    ensures
        b == is_step_name(steps_view(steps@), name@),
{
    let ghost sv = steps_view(steps@);
    let mut j: usize = 0;
    while j < steps.len()
        invariant
            j <= steps@.len(),
            sv == steps_view(steps@),
            forall|k: int| 0 <= k < j ==> sv[k].name != name@,
        decreases steps.len() - j,
    {
        if steps[j].name == *name {
            assert(sv[j as int].name == name@);
            return true;
        }
        j = j + 1;
    }
    false
}

/// Appends the errors of one profile.
fn check_profile(steps: &Vec<Step>, profile: &String, members: &Vec<String>, errs: &mut Vec<String>)
    ensures
        strings_view(final(errs)@) == strings_view(old(errs)@) + profile_errors(
            steps_view(steps@),
            profile@,
            strings_view(members@),
        ),
{
    let ghost start = strings_view(errs@);
    let ghost mv = strings_view(members@);
    if str_is_blank(profile.as_str()) {
        push_msg(errs, owned("profile name is empty"));
    }
    if members.len() == 0 {
        let mut m = String::new();
        push_str(&mut m, "profile `");
        push_str(&mut m, profile.as_str());
        push_str(&mut m, "` has no members");
        assert(m@ =~= msg_profile_no_members(profile@));
        push_msg(errs, m);
    }
    let ghost head = strings_view(errs@);
    let mut k: usize = 0;
    while k < members.len()
        invariant
            k <= members@.len(),
            mv == strings_view(members@),
            strings_view(errs@) == head + member_errors(steps_view(steps@), profile@, mv, k as int),
        decreases members.len() - k,
    {
        assert(mv[k as int] == members@[k as int]@);
        if !is_step_name_exec(steps, &members[k]) {
            let mut m = String::new();
            push_str(&mut m, "profile `");
            push_str(&mut m, profile.as_str());
            push_str(&mut m, "` references unknown step `");
            push_str(&mut m, members[k].as_str());
            push_str(&mut m, "`");
            assert(m@ =~= msg_unknown_member(profile@, members@[k as int]@));
            push_msg(errs, m);
        }
        k = k + 1;
        assert(strings_view(errs@) =~= head + member_errors(steps_view(steps@), profile@, mv, k as int));
    }
    assert(strings_view(errs@) =~= start + profile_errors(steps_view(steps@), profile@, mv));
}

/// Appends the errors of the hook configuration.
fn check_hook(h: &OnFailureConfig, errs: &mut Vec<String>)
    ensures
        strings_view(final(errs)@) == strings_view(old(errs)@) + hook_errors(h.enabled, h.cmd@, h.timeout_secs),
{
    let ghost start = strings_view(errs@);
    if h.enabled {
        if str_is_blank(h.cmd.as_str()) {
            push_msg(errs, owned("on_failure.enabled = true but on_failure.cmd is empty"));
        } else if split(h.cmd.as_str()).is_err() {
            let mut m = owned("on_failure.cmd is unparseable: ");
            push_str(&mut m, h.cmd.as_str());
            push_msg(errs, m);
        }
        let ghost mid = strings_view(errs@);
        if h.timeout_secs == 0 {
            push_msg(errs, owned("on_failure.timeout_secs must be > 0"));
        }
        assert(strings_view(errs@) =~= start + hook_errors(h.enabled, h.cmd@, h.timeout_secs));
    } else {
        assert(strings_view(errs@) =~= start + hook_errors(h.enabled, h.cmd@, h.timeout_secs));
    }
}

/// Validates a parsed configuration for semantic errors. All errors are
/// collected and returned together.
pub fn validate(cfg: &Config) -> (r: Result<(), ValidationErrors>)
    ensures
        match r {
            Ok(()) => validation_errors(cfg).len() == 0,
            Err(e) => strings_view(e.0@) == validation_errors(cfg) && e.0@.len() > 0,
        },
{
    let ghost sv = steps_view(cfg.steps@);
    let mut errs: Vec<String> = Vec::new();
    if cfg.steps.len() == 0 {
        push_msg(&mut errs, owned("no steps defined — add at least one [[steps]] entry"));
    }
    let ghost head = strings_view(errs@);
    let mut i: usize = 0;
    assert(strings_view(errs@) =~= head + steps_errors(sv, 0));
    while i < cfg.steps.len()
        invariant
            i <= cfg.steps@.len(),
            sv == steps_view(cfg.steps@),
            strings_view(errs@) == head + steps_errors(sv, i as int),
        decreases cfg.steps.len() - i,
    {
        check_step(&cfg.steps, i, &mut errs);
        i = i + 1;
        assert(strings_view(errs@) =~= head + steps_errors(sv, i as int));
    }
    let ghost after_steps = strings_view(errs@);
    if cfg.watch.debounce_ms < 50 {
        let mut m = owned("watch.debounce_ms = ");
        let d = u64_to_text(cfg.watch.debounce_ms);
        push_str(&mut m, d.as_str());
        push_str(&mut m, " is too small; minimum is 50");
        assert(m@ =~= msg_debounce(cfg.watch.debounce_ms));
        push_msg(&mut errs, m);
    }
    let ghost before_profiles = strings_view(errs@);
    let ghost pv = profiles_view(cfg.profiles@);
    let mut p: usize = 0;
    while p < cfg.profiles.len()
        invariant
            p <= cfg.profiles@.len(),
            pv == profiles_view(cfg.profiles@),
            strings_view(errs@) == before_profiles + profiles_errors(sv, pv, p as int),
            sv == steps_view(cfg.steps@),
        decreases cfg.profiles.len() - p,
    {
        let entry = &cfg.profiles[p];
        assert(pv[p as int] == (entry.0@, strings_view(entry.1@)));
        check_profile(&cfg.steps, &entry.0, &entry.1, &mut errs);
        p = p + 1;
        assert(strings_view(errs@) =~= before_profiles + profiles_errors(sv, pv, p as int));
    }
    check_hook(&cfg.on_failure, &mut errs);
    assert(pv.len() == cfg.profiles@.len());
    assert(strings_view(errs@) =~= validation_errors(cfg));
    if errs.len() == 0 {
        Ok(())
    } else {
        Err(ValidationErrors(errs))
    }
}

impl ValidationErrors {
    /// The errors as shown to the user: one per line, each indented by two
    /// spaces.
    pub fn to_string(&self) -> (s: String)
        ensures
            s@ == indented_lines(strings_view(self.0@)),
    {
        let ghost v = strings_view(self.0@);
        let mut s = String::new();
        let mut i: usize = 0;
        while i < self.0.len()
            invariant
                i <= self.0@.len(),
                v == strings_view(self.0@),
                s@ == indented_lines(v.take(i as int)),
            decreases self.0.len() - i,
        {
            proof {
                assert(v.take(i + 1).drop_last() =~= v.take(i as int));
            }
            if i > 0 {
                push_str(&mut s, "\n");
            }
            push_str(&mut s, "  ");
            push_str(&mut s, self.0[i].as_str());
            i = i + 1;
            proof {
                if i == 1 {
                    assert(indented_lines(v.take(0)) == Seq::<char>::empty());
                }
                assert(s@ =~= indented_lines(v.take(i as int)));
            }
        }
        assert(v.take(v.len() as int) =~= v);
        s
    }
}

/// Messages each prefixed by two spaces, separated by newlines.
pub open spec fn indented_lines(msgs: Seq<Seq<char>>) -> Seq<char>
    decreases msgs.len(),
{
    if msgs.len() == 0 {
        seq![]
    } else if msgs.len() == 1 {
        "  "@ + msgs[0]
    } else {
        indented_lines(msgs.drop_last()) + "\n"@ + "  "@ + msgs.last()
    }
}

} // verus!
