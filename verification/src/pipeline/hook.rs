//! The post-failure hook: what it is fed and how its reply is kept.
use vstd::prelude::*;

use crate::config::schema::{OnFailureConfig, strings_view};
use crate::pipeline::step::{StepResult, StepResultView, results_view};
use crate::shell::{shell_split, split};
use crate::text::{ends_with_char, i64_to_text, push_char, push_str, signed_decimal, str_is_blank, trim, trim_text};

verus! {

/// `s` ending in a newline: one is added unless it is already there.
pub open spec fn with_newline(s: Seq<char>) -> Seq<char> {
    if s.len() > 0 && s.last() == '\n' {
        s
    } else {
        s.push('\n')
    }
}

/// The exit code as the hook sees it: its number, or `unknown`.
pub open spec fn exit_text(code: Option<i32>) -> Seq<char> {
    match code {
        Some(c) => signed_decimal(c as int),
        None => "unknown"@,
    }
}

/// The block one failed step contributes: a header naming the step and its
/// exit code, its stdout, its stderr (after a `--- stderr ---` line when
/// stdout was not empty), each ending in a newline, then a blank line.
pub open spec fn failure_block(r: StepResultView) -> Seq<char> {
    "=== "@ + r.name + " (exit: "@ + exit_text(r.exit_code) + ") ===\n"@ + (if r.stdout.len() > 0 {
        with_newline(r.stdout)
    } else {
        seq![]
    }) + (if r.stderr.len() > 0 {
        (if r.stdout.len() > 0 {
            "--- stderr ---\n"@
        } else {
            seq![]
        }) + with_newline(r.stderr)
    } else {
        seq![]
    }) + "\n"@
}

/// The blocks of the failed steps, in order; passing steps contribute
/// nothing.
pub open spec fn combined_failures(rs: Seq<StepResultView>) -> Seq<char>
    decreases rs.len(),
{
    if rs.len() == 0 {
        seq![]
    } else {
        combined_failures(rs.drop_last()) + (if rs.last().success {
            seq![]
        } else {
            failure_block(rs.last())
        })
    }
}

/// Appends `s` and, unless it already ends in one, a newline.
pub fn push_line_block(out: &mut String, s: &str)
    ensures
        final(out)@ == old(out)@ + with_newline(s@),
{
    push_str(out, s);
    if !ends_with_char(s, '\n') {
        push_char(out, '\n');
    }
}

/// The block of one failed step (see `failure_block`).
fn failure_text(r: &StepResult) -> (b: String)
    ensures
        b@ == failure_block(r@),
{
    let mut b = String::new();
    push_str(&mut b, "=== ");
    push_str(&mut b, r.name.as_str());
    push_str(&mut b, " (exit: ");
    let code = match r.exit_code {
        Some(c) => i64_to_text(c as i64),
        None => {
            let mut u = String::new();
            push_str(&mut u, "unknown");
            u
        },
    };
    push_str(&mut b, code.as_str());
    push_str(&mut b, ") ===\n");
    let ghost header = b@;
    let out_empty = r.stdout.as_str().is_empty();
    if !out_empty {
        push_line_block(&mut b, r.stdout.as_str());
    }
    let ghost after_out = b@;
    let err_empty = r.stderr.as_str().is_empty();
    if !err_empty {
        if !out_empty {
            push_str(&mut b, "--- stderr ---\n");
        }
        push_line_block(&mut b, r.stderr.as_str());
    }
    push_str(&mut b, "\n");
    assert(b@ =~= failure_block(r@));
    b
}

/// Formats failed step results into one text for the hook's stdin. Only
/// failed steps are included.
pub fn combine_failed_output(results: &[StepResult]) -> (out: String)
    ensures
        out@ == combined_failures(results_view(results@)),
{
    let ghost rv = results_view(results@);
    let mut out = String::new();
    let mut i: usize = 0;
    while i < results.len()
        invariant
            i <= results@.len(),
            rv == results_view(results@),
            out@ == combined_failures(rv.take(i as int)),
        decreases results.len() - i,
    {
        proof {
            assert(rv.take(i + 1).drop_last() =~= rv.take(i as int));
            assert(rv.take(i + 1).last() == results@[i as int]@);
        }
        if !results[i].success {
            let b = failure_text(&results[i]);
            push_str(&mut out, b.as_str());
        } else {
            assert(out@ =~= out@ + Seq::<char>::empty());
        }
        i = i + 1;
    }
    assert(rv.take(rv.len() as int) =~= rv);
    out
}

/// What the hook reads on stdin: the prompt and a blank line when a prompt
/// is set, then the combined failure output.
pub fn hook_input(prompt: &str, combined: &str) -> (s: String)
    ensures
        s@ == if prompt@.len() > 0 {
            prompt@ + "\n\n"@ + combined@
        } else {
            combined@
        },
{
    let mut s = String::new();
    if !prompt.is_empty() {
        push_str(&mut s, prompt);
        push_str(&mut s, "\n\n");
    }
    push_str(&mut s, combined);
    s
}

/// The hook's reply as shown: its stdout trimmed, or `None` when nothing is
/// left.
pub fn hook_reply(stdout_text: &str) -> (r: Option<String>)
    ensures
        match r {
            Some(t) => t@ == trim(stdout_text@) && t@.len() > 0,
            None => trim(stdout_text@).len() == 0,
        },
{
    let t = trim_text(stdout_text);
    if t.as_str().is_empty() {
        None
    } else {
        Some(t)
    }
}

/// The program and arguments of the hook command, or why it cannot run.
pub fn hook_command_parts(cfg: &OnFailureConfig) -> (r: Result<(String, Vec<String>), String>)
    ensures
        match r {
            Ok((prog, args)) => shell_split(cfg.cmd@) == Some(seq![prog@] + strings_view(args@)),
            Err(e) => match shell_split(cfg.cmd@) {
                None => e@ == "parsing on_failure.cmd `"@ + cfg.cmd@ + "`: missing closing quote"@,
                Some(words) => words.len() == 0 && e@ == "on_failure.cmd is empty"@,
            },
        },
{
    match split(cfg.cmd.as_str()) {
        Err(e) => {
            let mut msg = String::new();
            push_str(&mut msg, "parsing on_failure.cmd `");
            push_str(&mut msg, cfg.cmd.as_str());
            push_str(&mut msg, "`: ");
            push_str(&mut msg, e.as_str());
            proof {
                reveal_strlit("`: ");
                reveal_strlit("missing closing quote");
                reveal_strlit("`: missing closing quote");
                assert("`: "@ + "missing closing quote"@ =~= "`: missing closing quote"@);
            }
            Err(msg)
        },
        Ok(words) => {
            let mut words = words;
            if words.len() == 0 {
                let mut msg = String::new();
                push_str(&mut msg, "on_failure.cmd is empty");
                return Err(msg);
            }
            let ghost all = words@;
            let prog = words.remove(0);
            assert(strings_view(all) =~= seq![prog@] + strings_view(words@));
            Ok((prog, words))
        },
    }
}


// ── Laws ────────────────────────────────────────────────────────────────────

/// The hook's input is empty exactly when no step failed: passing steps
/// contribute nothing, and each failed step contributes its block.
pub proof fn law_combined_output_only_failures(rs: Seq<StepResultView>)
    ensures
        combined_failures(rs).len() == 0 <==> forall|i: int|
            0 <= i < rs.len() ==> #[trigger] rs[i].success,
    decreases rs.len(),
{
    if rs.len() > 0 {
        let init = rs.drop_last();
        law_combined_output_only_failures(init);
        assert forall|i: int| 0 <= i < init.len() implies init[i] == rs[i] by {}
        if !rs.last().success {
            reveal_strlit("=== ");
            assert(failure_block(rs.last()).len() > 0);
            assert(!rs[rs.len() - 1].success);
        }
        if forall|i: int| 0 <= i < rs.len() ==> #[trigger] rs[i].success {
            assert(rs[rs.len() - 1].success);
            assert forall|i: int| 0 <= i < init.len() implies #[trigger] init[i].success by {
                assert(rs[i].success);
            }
        }
    }
}

} // verus!
