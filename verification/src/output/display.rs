//! What the displays compute before they draw: clipped output blocks, the
//! one-line diagnostic of a failed step, the trigger suffix of a run
//! header, and how many terminal rows a line takes.
use vstd::prelude::*;

use crate::config::schema::{copy_strings, strings_view};
use crate::output::diagnostic::{Diagnostic, DiagnosticView, diags_view};
use crate::output::style::{Theme, visible_count, visible_len};
use crate::output::{BrowseAction, BrowseActionView, Key, Verbosity};
use crate::path::{join_path, join_path_of, same_path};
use crate::output::diagnostic::{collect_diagnostics, extract_line, extract_spec, first_location, parse, same_location};
use crate::pipeline::step::results_view;
use crate::watch_loop::opt_strings;
use crate::pipeline::step::{StepResult, StepResultView};
use crate::shell::{shell_split, split};
use crate::text::{
    chars_of, decimal, is_blank, lines, lines_of, push_char, push_chars, push_str, slice_chars,
    str_is_blank,
    string_of, u64_to_text, view_lines,
};

verus! {

/// Outputs longer than this many lines are clipped.
pub const MAX_DISPLAY_LINES: usize = 50;

/// Lines kept from each end of a clipped output.
pub const CONTEXT_LINES: usize = 25;

// ── Specification ───────────────────────────────────────────────────────────

/// Stdout and stderr as one text: stderr follows stdout on a line of its
/// own.
pub open spec fn combined_output(stdout: Seq<char>, stderr: Seq<char>) -> Seq<char> {
    if stderr.len() == 0 {
        stdout
    } else if stdout.len() == 0 {
        stderr
    } else if stdout.last() == '\n' {
        stdout + stderr
    } else {
        stdout + "\n"@ + stderr
    }
}

/// Each line indented by two spaces and ended by a newline.
pub open spec fn indented(ls: Seq<Seq<char>>) -> Seq<char>
    decreases ls.len(),
{
    if ls.len() == 0 {
        seq![]
    } else {
        indented(ls.drop_last()) + "  "@ + ls.last() + "\n"@
    }
}

pub open spec fn elision_line(elided: nat) -> Seq<char> {
    "  ... ["@ + decimal(elided) + " lines elided — see .baraddur/last-run.log] ...\n"@
}

/// The output block of a step: every line when there are at most
/// `MAX_DISPLAY_LINES`, else the first and last `CONTEXT_LINES` around a
/// line that counts the elided ones.
pub open spec fn truncated_output(stdout: Seq<char>, stderr: Seq<char>) -> Seq<char> {
    let ls = lines(combined_output(stdout, stderr));
    if ls.len() <= MAX_DISPLAY_LINES {
        indented(ls)
    } else {
        indented(ls.take(CONTEXT_LINES as int)) + elision_line(
            (ls.len() - 2 * CONTEXT_LINES) as nat,
        ) + indented(ls.skip(ls.len() - CONTEXT_LINES))
    }
}

/// The lines that hold more than whitespace.
pub open spec fn nonblank_lines(ls: Seq<Seq<char>>) -> Seq<Seq<char>>
    decreases ls.len(),
{
    if ls.len() == 0 {
        seq![]
    } else {
        nonblank_lines(ls.drop_last()) + if is_blank(ls.last()) {
            seq![]
        } else {
            seq![ls.last()]
        }
    }
}

/// The inline diagnostic of a step: empty for a pass, `command not found`
/// when the step could not start, else its only non-blank output line
/// (cut to 40 characters and an ellipsis) or the count of such lines.
pub open spec fn short_diagnostic_text(r: StepResultView) -> Seq<char> {
    if r.success {
        seq![]
    } else if r.exit_code is None {
        "command not found"@
    } else {
        let ls = nonblank_lines(lines(r.stdout + r.stderr));
        if ls.len() == 0 {
            seq![]
        } else if ls.len() == 1 {
            if ls[0].len() > 40 {
                ls[0].take(40) + "…"@
            } else {
                ls[0]
            }
        } else {
            decimal(ls.len()) + " lines"@
        }
    }
}

/// The suffix of a run header naming its trigger: the path for one file,
/// the count for several, nothing without a trigger.
pub open spec fn trigger_suffix(paths: Option<Seq<Seq<char>>>) -> Seq<char> {
    match paths {
        Some(ps) => if ps.len() == 1 {
            "  ·  "@ + ps[0]
        } else {
            "  ·  "@ + decimal(ps.len()) + " files"@
        },
        None => seq![],
    }
}

/// Rows a printed line takes on a terminal `width` columns wide: its
/// visible length divided by the width, rounded up, and at least one.
pub open spec fn rows_for(text: Seq<char>, width: nat) -> u16 {
    let v: int = visible_count(text, false) as int;
    if width == 0 || v == 0 {
        1
    } else {
        ((v + width - 1) / (width as int)) as u16
    }
}

// ── Executable operations ───────────────────────────────────────────────────

fn push_indented(out: &mut String, line: &Vec<char>)
    ensures
        final(out)@ == old(out)@ + "  "@ + line@ + "\n"@,
{
    push_str(out, "  ");
    push_chars(out, line);
    push_str(out, "\n");
}

/// Appends the indented lines `ls[lo..hi]`.
fn push_indented_range(out: &mut String, ls: &Vec<Vec<char>>, lo: usize, hi: usize)
    requires
        lo <= hi <= ls@.len(),
    ensures
        final(out)@ == old(out)@ + indented(view_lines(ls@).subrange(lo as int, hi as int)),
{
    let ghost lv = view_lines(ls@);
    let mut i = lo;
    assert(lv.subrange(lo as int, lo as int) =~= Seq::<Seq<char>>::empty());
    while i < hi
        invariant
            lo <= i <= hi <= ls@.len(),
            lv == view_lines(ls@),
            out@ == old(out)@ + indented(lv.subrange(lo as int, i as int)),
        decreases hi - i,
    {
        proof {
            assert(lv.subrange(lo as int, i + 1).drop_last() =~= lv.subrange(lo as int, i as int));
            assert(lv.subrange(lo as int, i + 1).last() == ls@[i as int]@);
        }
        push_indented(out, &ls[i]);
        i = i + 1;
    }
}

/// Stdout and stderr as one text (see `combined_output`).
pub fn combine_output(stdout: &str, stderr: &str) -> (s: String)
    ensures
        s@ == combined_output(stdout@, stderr@),
{
    let mut s = String::new();
    push_str(&mut s, stdout);
    if !stderr.is_empty() {
        if !stdout.is_empty() && !crate::text::ends_with_char(stdout, '\n') {
            push_str(&mut s, "\n");
        }
        push_str(&mut s, stderr);
    } else {
        assert(s@ =~= stdout@);
    }
    proof {
        if stderr@.len() > 0 && stdout@.len() == 0 {
            assert(s@ =~= stderr@);
        }
    }
    s
}

/// Formats stdout and stderr with head-and-tail clipping when the output is
/// long. Each line gets a two-space prefix; the result is ready to print.
pub fn format_truncated_output(stdout: &str, stderr: &str) -> (out: String)
    ensures
        out@ == truncated_output(stdout@, stderr@),
{
    let combined = combine_output(stdout, stderr);
    let ls = lines_of(&chars_of(combined.as_str()));
    let ghost lv = view_lines(ls@);
    let n = ls.len();
    let mut out = String::new();
    if n <= MAX_DISPLAY_LINES {
        push_indented_range(&mut out, &ls, 0, n);
        assert(lv.subrange(0, n as int) =~= lv);
    } else {
        push_indented_range(&mut out, &ls, 0, CONTEXT_LINES);
        let elided = n - 2 * CONTEXT_LINES;
        push_str(&mut out, "  ... [");
        let count = u64_to_text(elided as u64);
        push_str(&mut out, count.as_str());
        push_str(&mut out, " lines elided — see .baraddur/last-run.log] ...\n");
        push_indented_range(&mut out, &ls, n - CONTEXT_LINES, n);
        assert(lv.subrange(0, CONTEXT_LINES as int) =~= lv.take(CONTEXT_LINES as int));
        assert(lv.subrange(n - CONTEXT_LINES, n as int) =~= lv.skip(n - CONTEXT_LINES));
    }
    out
}

/// The non-blank lines of `ls` (see `nonblank_lines`).
fn nonblank_of(ls: &Vec<Vec<char>>) -> (out: Vec<Vec<char>>)
    ensures
        view_lines(out@) == nonblank_lines(view_lines(ls@)),
{
    let ghost lv = view_lines(ls@);
    let mut out: Vec<Vec<char>> = Vec::new();
    let mut i: usize = 0;
    while i < ls.len()
        invariant
            i <= ls@.len(),
            lv == view_lines(ls@),
            view_lines(out@) == nonblank_lines(lv.take(i as int)),
        decreases ls.len() - i,
    {
        proof {
            assert(lv.take(i + 1).drop_last() =~= lv.take(i as int));
            assert(lv.take(i + 1).last() == ls@[i as int]@);
        }
        let line = string_of(&ls[i]);
        let ghost before = view_lines(out@);
        if !str_is_blank(line.as_str()) {
            out.push(crate::text::slice_chars(&ls[i], 0, ls[i].len()));
            assert(ls@[i as int]@.subrange(0, ls@[i as int]@.len() as int) =~= ls@[i as int]@);
            assert(view_lines(out@) =~= before + seq![ls@[i as int]@]);
        } else {
            assert(view_lines(out@) =~= before + Seq::<Seq<char>>::empty());
        }
        i = i + 1;
    }
    assert(lv.take(lv.len() as int) =~= lv);
    out
}

/// Builds the short inline diagnostic of a step (see
/// `short_diagnostic_text`).
pub fn short_diagnostic(result: &StepResult) -> (s: String)
    ensures
        s@ == short_diagnostic_text(result@),
{
    if result.success {
        return String::new();
    }
    match result.exit_code {
        None => {
            let mut s = String::new();
            push_str(&mut s, "command not found");
            s
        },
        Some(_) => {
            let mut combined = String::new();
            push_str(&mut combined, result.stdout.as_str());
            push_str(&mut combined, result.stderr.as_str());
            let ls = lines_of(&chars_of(combined.as_str()));
            let non_empty = nonblank_of(&ls);
            let ghost nv = view_lines(non_empty@);
            let n = non_empty.len();
            if n == 0 {
                String::new()
            } else if n == 1 {
                let line = &non_empty[0];
                assert(nv[0] == line@);
                if line.len() > 40 {
                    let head = crate::text::slice_chars(line, 0, 40);
                    let mut s = string_of(&head);
                    push_str(&mut s, "…");
                    assert(head@ =~= line@.take(40));
                    s
                } else {
                    string_of(line)
                }
            } else {
                let mut s = u64_to_text(n as u64);
                push_str(&mut s, " lines");
                s
            }
        },
    }
}

/// Formats the trigger suffix for a run header: `"  ·  lib/foo.ex"` for
/// one file, `"  ·  3 files"` for several, `""` for none.
pub fn format_trigger_suffix(paths: Option<&[String]>) -> (s: String)
    ensures
        s@ == trigger_suffix(match paths {
            Some(ps) => Some(strings_view(ps@)),
            None => None,
        }),
{
    match paths {
        Some(ps) => {
            let mut s = String::new();
            push_str(&mut s, "  ·  ");
            if ps.len() == 1 {
                push_str(&mut s, ps[0].as_str());
                assert(strings_view(ps@)[0] == ps@[0]@);
            } else {
                let count = u64_to_text(ps.len() as u64);
                push_str(&mut s, count.as_str());
                push_str(&mut s, " files");
            }
            s
        },
        None => String::new(),
    }
}

/// Terminal rows a printed line occupies at `width` columns, accounting
/// for wrapping (see `rows_for`).
pub fn visual_rows_for(text: &str, width: usize) -> (r: u16)
    ensures
        r == rows_for(text@, width as nat),
{
    let vlen = visible_len(text);
    if width == 0 || vlen == 0 {
        1
    } else {
        let q = vlen / width;
        if vlen % width != 0 {
            assert(q < usize::MAX) by (nonlinear_arith)
                requires
                    width > 0,
                    vlen % width != 0,
                    q == vlen / width,
            {
                assert(width >= 2);
                assert(q * width <= vlen);
            }
        }
        let rows = if vlen % width != 0 {
            q + 1
        } else {
            q
        };
        assert(rows as int == (vlen as int + width as int - 1) / (width as int)) by (nonlinear_arith)
            requires
                width > 0,
                q as int == vlen as int / width as int,
                rows as int == (if vlen as int % width as int != 0 {
                    q as int + 1
                } else {
                    q as int
                }),
        ;
        #[verifier::truncate]
        (rows as u16)
    }
}


// ── Run lifecycle of the terminal display ───────────────────────────────────

/// Index of the first step named `name`.
pub open spec fn position_of(names: Seq<Seq<char>>, name: Seq<char>) -> Option<int>
    decreases names.len(),
{
    if names.len() == 0 {
        None
    } else {
        match position_of(names.drop_last(), name) {
            Some(i) => Some(i),
            None => if names.last() == name {
                Some(names.len() - 1)
            } else {
                None
            },
        }
    }
}

/// Index of the last result for a step named `name`.
pub open spec fn last_result_for(rs: Seq<StepResultView>, name: Seq<char>) -> Option<int>
    decreases rs.len(),
{
    if rs.len() == 0 {
        None
    } else if rs.last().name == name {
        Some(rs.len() - 1)
    } else {
        last_result_for(rs.drop_last(), name)
    }
}

/// Index of the first failed result.
pub open spec fn first_failed(rs: Seq<StepResultView>) -> Option<int>
    decreases rs.len(),
{
    if rs.len() == 0 {
        None
    } else {
        match first_failed(rs.drop_last()) {
            Some(j) => Some(j),
            None => if !rs.last().success {
                Some(rs.len() - 1)
            } else {
                None
            },
        }
    }
}

pub open spec fn count_failed(rs: Seq<StepResultView>) -> nat
    decreases rs.len(),
{
    if rs.len() == 0 {
        0
    } else {
        count_failed(rs.drop_last()) + if rs.last().success {
            0nat
        } else {
            1nat
        }
    }
}

/// The result shown for step `i`: the last result of its name, when `i` is
/// the first step of that name.
pub open spec fn result_for_step(names: Seq<Seq<char>>, rs: Seq<StepResultView>, i: int) -> Option<
    int,
> {
    if position_of(names, names[i]) == Some(i) {
        last_result_for(rs, names[i])
    } else {
        None
    }
}

/// Where browse mode starts: on the step of the first failure, else on
/// the first step.
pub open spec fn start_cursor(names: Seq<Seq<char>>, rs: Seq<StepResultView>) -> int {
    match first_failed(rs) {
        Some(j) => match position_of(names, rs[j].name) {
            Some(i) => i,
            None => 0,
        },
        None => 0,
    }
}

/// The message a file-change run with no matching step leaves.
pub open spec fn no_match_message(trigger: Seq<Seq<char>>) -> Seq<char> {
    if trigger.len() == 1 {
        "no steps match changed path: "@ + trigger[0]
    } else if trigger.len() > 1 {
        "no steps match "@ + decimal(trigger.len()) + " changed paths"@
    } else {
        "no steps match changed paths"@
    }
}

proof fn lemma_position_of_bounds(names: Seq<Seq<char>>, name: Seq<char>)
    ensures
        position_of(names, name) matches Some(i) ==> 0 <= i < names.len() && names[i] == name
            && forall|k: int| 0 <= k < i ==> names[k] != name,
        position_of(names, name) is None ==> forall|k: int| 0 <= k < names.len() ==> names[k] != name,
    decreases names.len(),
{
    if names.len() > 0 {
        let init = names.drop_last();
        lemma_position_of_bounds(init, name);
        assert forall|k: int| 0 <= k < init.len() implies init[k] == names[k] by {}
        match position_of(init, name) {
            Some(i) => {},
            None => {
                if names.last() == name {
                    assert(names[names.len() - 1] == name);
                }
                assert forall|k: int| 0 <= k < names.len() - 1 implies names[k] != name by {
                    assert(init[k] == names[k]);
                }
            },
        }
    }
}

proof fn lemma_position_of_exact(names: Seq<Seq<char>>, name: Seq<char>, i: int)
    requires
        0 <= i < names.len(),
        names[i] == name,
        forall|k: int| 0 <= k < i ==> names[k] != name,
    ensures
        position_of(names, name) == Some(i),
{
    lemma_position_of_bounds(names, name);
}

// ── Interactive display state ───────────────────────────────────────────────

/// Number of spinner frames the terminal display cycles through.
pub const SPINNER_FRAME_COUNT: usize = 10;

/// Status of one step in the terminal display.
#[derive(Debug)]
pub enum StepStatus {
    Queued,
    Running,
    Passed(std::time::Duration),
    /// Failed, with its short diagnostic.
    Failed(std::time::Duration, String),
    Skipped,
}

/// A request to open a file at a line (and column) in the editor.
#[derive(Debug, Clone, PartialEq, Eq)]
pub struct EditorRequest {
    pub path: String,
    pub line: u32,
    pub col: Option<u32>,
}

pub struct EditorRequestView {
    pub path: Seq<char>,
    pub line: u32,
    pub col: Option<u32>,
}

impl View for EditorRequest {
    type V = EditorRequestView;

    open spec fn view(&self) -> EditorRequestView {
        EditorRequestView { path: self.path@, line: self.line, col: self.col }
    }
}

/// The state of the interactive terminal display: the step list of the
/// current run, and what browse mode shows of it. Drawing, the terminal
/// modes and the editor are the caller's.
pub struct TtyDisplay {
    pub theme: Theme,
    pub verbosity: Verbosity,
    pub no_clear: bool,
    pub step_names: Vec<String>,
    pub statuses: Vec<StepStatus>,
    pub spinner_frame: usize,
    pub has_running: bool,
    /// Pre-formatted output per step, captured when the run finishes.
    pub step_outputs: Vec<String>,
    /// Whether each step's output is shown inline in browse mode.
    pub expanded: Vec<bool>,
    /// The `O` toggle: true when all steps are expanded.
    pub all_expanded: bool,
    /// Index of the highlighted row.
    pub cursor: usize,
    pub browse_active: bool,
    /// Whether the last key was a lone `g` (the first half of `gg`).
    pub last_key_g: bool,
    /// Paths that triggered the next run; taken when it starts.
    pub trigger_paths: Option<Vec<String>>,
    /// Counts runs; increased when each run starts.
    pub run_count: usize,
    /// Row offset of the browse-mode viewport.
    pub browse_scroll: usize,
    pub hook_output_text: String,
    /// One-shot message shown below the help bar.
    pub transient_message: Option<String>,
    /// The trigger the current run started with.
    pub last_trigger_paths: Option<Vec<String>>,
    pub hook_running: bool,
    /// Root of the pipeline, against which diagnostic paths resolve.
    pub root: String,
    /// Diagnostics parsed from each step's output.
    pub parsed_diagnostics: Vec<Vec<Diagnostic>>,
    /// Index of the current diagnostic within each step's list.
    pub current_diagnostic: Vec<usize>,
    /// True while the `?` help modal is showing.
    pub help_modal_active: bool,
    /// An editor jump the caller is to perform.
    pub editor_request: Option<EditorRequest>,
}

/// What the footer of a finished run reports.
#[derive(Debug, Clone, Copy, PartialEq, Eq)]
pub struct RunTally {
    pub failed: usize,
    pub passed: usize,
    pub skipped: usize,
    /// False when a quiet display shows nothing of a passing run.
    pub show_footer: bool,
}

/// How the run divider is coloured.
#[derive(Debug, Clone, Copy, PartialEq, Eq)]
pub enum DividerColor {
    /// Some step is still queued or running.
    Dim,
    /// All settled and all passed.
    Green,
    /// All settled and some failed.
    Red,
}

pub open spec fn opt_text(o: Option<String>) -> Option<Seq<char>> {
    match o {
        Some(s) => Some(s@),
        None => None,
    }
}

pub open spec fn opt_request(o: Option<EditorRequest>) -> Option<EditorRequestView> {
    match o {
        Some(r) => Some(r@),
        None => None,
    }
}

pub open spec fn any_failed_status(st: Seq<StepStatus>) -> bool {
    exists|i: int| 0 <= i < st.len() && #[trigger] st[i] is Failed
}

pub open spec fn any_running_status(st: Seq<StepStatus>) -> bool {
    exists|i: int| 0 <= i < st.len() && #[trigger] st[i] is Running
}

pub open spec fn all_settled_status(st: Seq<StepStatus>) -> bool {
    forall|i: int| 0 <= i < st.len() ==> !(#[trigger] st[i] is Running) && !(st[i] is Queued)
}

/// What a key press leaves of the browse state, and the action it asks for.
pub struct KeyOutcome {
    pub cursor: usize,
    pub expanded: Seq<bool>,
    pub all_expanded: bool,
    pub last_key_g: bool,
    pub transient: Option<Seq<char>>,
    pub help_modal_active: bool,
    pub current_diagnostic: Seq<usize>,
    pub editor_request: Option<EditorRequestView>,
    pub action: BrowseActionView,
}

pub open spec fn no_failures_message() -> Seq<char> {
    "no failures to re-run"@
}

pub open spec fn no_diagnostics_message() -> Seq<char> {
    "no diagnostics on this step"@
}

/// `(a + b) % m` without overflow, for `a, b < m`.
fn add_mod(a: usize, b: usize, m: usize) -> (r: usize)
    requires
        a < m,
        b <= m,
    ensures
        r as int == (a as int + b as int) % (m as int),
{
    if b >= m - a {
        let r = b - (m - a);
        proof {
            vstd::arithmetic::div_mod::lemma_mod_add_multiples_vanish(r as int, m as int);
            vstd::arithmetic::div_mod::lemma_small_mod(r as nat, m as nat);
        }
        r
    } else {
        let r = a + b;
        proof {
            vstd::arithmetic::div_mod::lemma_small_mod(r as nat, m as nat);
        }
        r
    }
}

impl TtyDisplay {
    /// The vectors describe the same steps, and the cursor and the current
    /// diagnostics point inside them.
    pub open spec fn wf(&self) -> bool {
        let n = self.step_names@.len();
        &&& self.statuses@.len() == n
        &&& self.step_outputs@.len() == n
        &&& self.expanded@.len() == n
        &&& self.parsed_diagnostics@.len() == n
        &&& self.current_diagnostic@.len() == n
        &&& (n > 0 ==> self.cursor < n)
        &&& forall|i: int|
            0 <= i < n && self.parsed_diagnostics@[i]@.len() > 0 ==> #[trigger] self.current_diagnostic@[i]
                < self.parsed_diagnostics@[i]@.len()
    }

    /// The state of browse mode as a key outcome with no change.
    pub open spec fn unchanged_outcome(self) -> KeyOutcome {
        KeyOutcome {
            cursor: self.cursor,
            expanded: self.expanded@,
            all_expanded: self.all_expanded,
            last_key_g: self.last_key_g,
            transient: opt_text(self.transient_message),
            help_modal_active: self.help_modal_active,
            current_diagnostic: self.current_diagnostic@,
            editor_request: opt_request(self.editor_request),
            action: BrowseActionView::Noop,
        }
    }

    /// `n`/`p`: moves the current diagnostic of the cursor step by `delta`,
    /// wrapping around; a step without diagnostics gets a message instead.
    pub open spec fn step_diagnostic(self, delta: int, b: KeyOutcome) -> KeyOutcome {
        let len = self.parsed_diagnostics@[self.cursor as int]@.len();
        if len == 0 {
            KeyOutcome {
                last_key_g: false,
                transient: Some(no_diagnostics_message()),
                action: BrowseActionView::Redraw,
                ..b
            }
        } else {
            KeyOutcome {
                last_key_g: false,
                current_diagnostic: b.current_diagnostic.update(
                    self.cursor as int,
                    ((self.current_diagnostic@[self.cursor as int] + delta) % (len as int)) as usize,
                ),
                action: BrowseActionView::Redraw,
                ..b
            }
        }
    }

    /// `e`: asks for the current diagnostic of the cursor step to be opened,
    /// its path resolved against the root.
    pub open spec fn open_diagnostic(self, b: KeyOutcome) -> KeyOutcome {
        let diags = diags_view(self.parsed_diagnostics@[self.cursor as int]@);
        if diags.len() == 0 {
            KeyOutcome {
                last_key_g: false,
                transient: Some(no_diagnostics_message()),
                action: BrowseActionView::Redraw,
                ..b
            }
        } else {
            let d = diags[self.current_diagnostic@[self.cursor as int] as int];
            KeyOutcome {
                last_key_g: false,
                editor_request: Some(
                    EditorRequestView { path: join_path(self.root@, d.path), line: d.line, col: d.col },
                ),
                action: BrowseActionView::Redraw,
                ..b
            }
        }
    }

    /// The effect of a key on a non-empty step list, after the transient
    /// message was cleared into `b`.
    pub open spec fn key_effect(self, k: Key, b: KeyOutcome) -> KeyOutcome {
        let n = self.step_names@.len();
        let moved = KeyOutcome { last_key_g: false, action: BrowseActionView::Redraw, ..b };
        match k {
            Key::Down => KeyOutcome {
                cursor: if self.cursor + 1 < n { (self.cursor + 1) as usize } else { (n - 1) as usize },
                ..moved
            },
            Key::Up => KeyOutcome {
                cursor: if self.cursor > 0 { (self.cursor - 1) as usize } else { 0 },
                ..moved
            },
            Key::Enter => KeyOutcome {
                expanded: b.expanded.update(self.cursor as int, !b.expanded[self.cursor as int]),
                ..moved
            },
            Key::Other => KeyOutcome { last_key_g: false, ..b },
            Key::Char(c) => if c == 'j' {
                KeyOutcome {
                    cursor: if self.cursor + 1 < n { (self.cursor + 1) as usize } else { (n - 1) as usize },
                    ..moved
                }
            } else if c == 'k' {
                KeyOutcome {
                    cursor: if self.cursor > 0 { (self.cursor - 1) as usize } else { 0 },
                    ..moved
                }
            } else if c == 'g' {
                if self.last_key_g {
                    KeyOutcome { cursor: 0, ..moved }
                } else {
                    KeyOutcome { last_key_g: true, ..b }
                }
            } else if c == 'G' {
                KeyOutcome { cursor: (n - 1) as usize, ..moved }
            } else if c == 'o' {
                KeyOutcome {
                    expanded: b.expanded.update(self.cursor as int, !b.expanded[self.cursor as int]),
                    ..moved
                }
            } else if c == 'O' {
                KeyOutcome {
                    all_expanded: !self.all_expanded,
                    expanded: Seq::new(b.expanded.len(), |i: int| !self.all_expanded),
                    ..moved
                }
            } else if c == 'r' {
                KeyOutcome { action: BrowseActionView::Rerun, ..moved }
            } else if c == 'f' {
                if any_failed_status(self.statuses@) {
                    KeyOutcome { action: BrowseActionView::RerunFailed, ..moved }
                } else {
                    KeyOutcome { transient: Some(no_failures_message()), ..moved }
                }
            } else if c == 'c' {
                KeyOutcome {
                    action: BrowseActionView::RerunCursor(self.step_names@[self.cursor as int]@),
                    ..moved
                }
            } else if c == 'n' {
                self.step_diagnostic(1, b)
            } else if c == 'p' {
                self.step_diagnostic(-1, b)
            } else if c == 'e' {
                self.open_diagnostic(b)
            } else if c == '?' {
                KeyOutcome { help_modal_active: true, ..moved }
            } else if c == 'q' {
                KeyOutcome { action: BrowseActionView::Quit, ..b }
            } else {
                KeyOutcome { last_key_g: false, ..b }
            },
        }
    }

    /// What a key press does in browse mode. While the help modal is up,
    /// any key only dismisses it. With no steps only `q` does anything.
    /// Otherwise the key first clears a transient message; a key that then
    /// changes nothing still asks for a redraw so the message disappears.
    pub open spec fn key_outcome(self, k: Key) -> KeyOutcome {
        let base = self.unchanged_outcome();
        if self.help_modal_active {
            KeyOutcome {
                help_modal_active: false,
                last_key_g: false,
                action: BrowseActionView::Redraw,
                ..base
            }
        } else if self.step_names@.len() == 0 {
            KeyOutcome {
                action: if k == Key::Char('q') {
                    BrowseActionView::Quit
                } else {
                    BrowseActionView::Noop
                },
                ..base
            }
        } else {
            let out = self.key_effect(k, KeyOutcome { transient: None, ..base });
            if out.action == BrowseActionView::Noop && self.transient_message is Some {
                KeyOutcome { action: BrowseActionView::Redraw, ..out }
            } else {
                out
            }
        }
    }

    /// Everything `handle_key` leaves alone is unchanged.
    pub open spec fn same_run(self, other: Self) -> bool {
        &&& other.theme == self.theme
        &&& other.verbosity == self.verbosity
        &&& other.no_clear == self.no_clear
        &&& other.step_names@ == self.step_names@
        &&& other.statuses@ == self.statuses@
        &&& other.spinner_frame == self.spinner_frame
        &&& other.has_running == self.has_running
        &&& other.step_outputs@ == self.step_outputs@
        &&& other.browse_active == self.browse_active
        &&& other.trigger_paths == self.trigger_paths
        &&& other.run_count == self.run_count
        &&& other.browse_scroll == self.browse_scroll
        &&& other.hook_output_text@ == self.hook_output_text@
        &&& other.last_trigger_paths == self.last_trigger_paths
        &&& other.hook_running == self.hook_running
        &&& other.root@ == self.root@
        &&& other.parsed_diagnostics@ == self.parsed_diagnostics@
    }

    pub open spec fn shows(self, o: KeyOutcome) -> bool {
        &&& self.cursor == o.cursor
        &&& self.expanded@ == o.expanded
        &&& self.all_expanded == o.all_expanded
        &&& self.last_key_g == o.last_key_g
        &&& opt_text(self.transient_message) == o.transient
        &&& self.help_modal_active == o.help_modal_active
        &&& self.current_diagnostic@ == o.current_diagnostic
        &&& opt_request(self.editor_request) == o.editor_request
    }

    /// A display with no run yet.
    pub fn new(theme: Theme, verbosity: Verbosity, no_clear: bool) -> (d: Self)
        ensures
            d.wf(),
            d.theme == theme,
            d.verbosity == verbosity,
            d.no_clear == no_clear,
            d.step_names@.len() == 0,
            d.run_count == 0,
            d.trigger_paths is None,
            !d.browse_active,
            !d.hook_running,
            !d.help_modal_active,
            d.transient_message is None,
            d.editor_request is None,
    {
        TtyDisplay {
            theme,
            verbosity,
            no_clear,
            step_names: Vec::new(),
            statuses: Vec::new(),
            spinner_frame: 0,
            has_running: false,
            step_outputs: Vec::new(),
            expanded: Vec::new(),
            all_expanded: false,
            cursor: 0,
            browse_active: false,
            last_key_g: false,
            trigger_paths: None,
            run_count: 0,
            browse_scroll: 0,
            hook_output_text: String::new(),
            transient_message: None,
            last_trigger_paths: None,
            hook_running: false,
            root: String::new(),
            parsed_diagnostics: Vec::new(),
            current_diagnostic: Vec::new(),
            help_modal_active: false,
            editor_request: None,
        }
    }

    /// Moves the diagnostic cursor of the current step by `delta`, wrapping
    /// around its list. Returns `false` when the step has no diagnostics.
    pub fn advance_diagnostic(&mut self, delta: i32) -> (moved: bool)
        requires
            old(self).wf(),
            old(self).step_names@.len() > 0,
        ensures
            final(self).wf(),
            moved == (old(self).parsed_diagnostics@[old(self).cursor as int]@.len() > 0),
            moved ==> final(self).current_diagnostic@ == old(self).current_diagnostic@.update(
                old(self).cursor as int,
                ((old(self).current_diagnostic@[old(self).cursor as int] + delta) % (
                old(self).parsed_diagnostics@[old(self).cursor as int]@.len() as int)) as usize,
            ),
            !moved ==> final(self).current_diagnostic@ == old(self).current_diagnostic@,
            final(self).cursor == old(self).cursor,
            final(self).parsed_diagnostics@ == old(self).parsed_diagnostics@,
            final(self).step_names@ == old(self).step_names@,
            final(self).statuses@ == old(self).statuses@,
            final(self).step_outputs@ == old(self).step_outputs@,
            final(self).expanded@ == old(self).expanded@,
            final(self).all_expanded == old(self).all_expanded,
            final(self).last_key_g == old(self).last_key_g,
            final(self).transient_message == old(self).transient_message,
            final(self).help_modal_active == old(self).help_modal_active,
            final(self).editor_request == old(self).editor_request,
            old(self).same_run(*final(self)),
    {
        let len = self.parsed_diagnostics[self.cursor].len();
        if len == 0 {
            return false;
        }
        let cur = self.current_diagnostic[self.cursor];
        let ghost c = self.cursor as int;
        assert(cur < len);
        let next: usize = if delta >= 0 {
            let step = (delta as usize) % len;
            proof {
                vstd::arithmetic::div_mod::lemma_add_mod_noop_right(cur as int, delta as int, len as int);
            }
            add_mod(cur, step, len)
        } else {
            let back = ((-(delta as i64)) as usize) % len;
            proof {
                let k = -(delta as int);
                vstd::arithmetic::div_mod::lemma_sub_mod_noop_right(cur as int, k, len as int);
                vstd::arithmetic::div_mod::lemma_mod_add_multiples_vanish(cur as int - back as int, len as int);
                assert(cur as int + delta as int == cur as int - k);
            }
            add_mod(cur, len - back, len)
        };
        self.current_diagnostic.set(self.cursor, next);
        true
    }
}


impl TtyDisplay {
    /// `e`: records an editor request for the current diagnostic of the
    /// cursor step, or a message when it has none.
    fn open_current_diagnostic(&mut self)
        requires
            old(self).wf(),
            old(self).step_names@.len() > 0,
            old(self).transient_message is None,
        ensures
            final(self).wf(),
            old(self).same_run(*final(self)),
            final(self).shows(
                old(self).open_diagnostic(
                    KeyOutcome { last_key_g: false, ..old(self).unchanged_outcome() },
                ),
            ),
    {
        self.last_key_g = false;
        let step = self.cursor;
        if self.parsed_diagnostics[step].len() == 0 {
            self.transient_message = Some("no diagnostics on this step".to_owned());
            return;
        }
        let idx = self.current_diagnostic[step];
        let d = &self.parsed_diagnostics[step][idx];
        let ghost dv = diags_view(self.parsed_diagnostics@[step as int]@);
        assert(dv[idx as int] == d@);
        let path = join_path_of(self.root.as_str(), d.path.as_str());
        self.editor_request = Some(EditorRequest { path, line: d.line, col: d.col });
    }

    /// Sets every step's expansion to `value`.
    fn expand_all(&mut self, value: bool)
        requires
            old(self).wf(),
        ensures
            final(self).wf(),
            final(self).expanded@ == Seq::new(old(self).expanded@.len(), |i: int| value),
            old(self).same_run(*final(self)),
            final(self).cursor == old(self).cursor,
            final(self).all_expanded == old(self).all_expanded,
            final(self).last_key_g == old(self).last_key_g,
            final(self).transient_message == old(self).transient_message,
            final(self).help_modal_active == old(self).help_modal_active,
            final(self).current_diagnostic@ == old(self).current_diagnostic@,
            final(self).editor_request == old(self).editor_request,
    {
        let n = self.expanded.len();
        let mut i: usize = 0;
        while i < n
            invariant
                self.wf(),
                n == self.expanded@.len(),
                i <= n,
                forall|j: int| 0 <= j < i ==> self.expanded@[j] == value,
                old(self).same_run(*self),
                self.cursor == old(self).cursor,
                self.all_expanded == old(self).all_expanded,
                self.last_key_g == old(self).last_key_g,
                self.transient_message == old(self).transient_message,
                self.help_modal_active == old(self).help_modal_active,
                self.current_diagnostic@ == old(self).current_diagnostic@,
                self.editor_request == old(self).editor_request,
                self.expanded@.len() == old(self).expanded@.len(),
            decreases n - i,
        {
            self.expanded.set(i, value);
            i = i + 1;
        }
        assert(self.expanded@ =~= Seq::new(old(self).expanded@.len(), |i: int| value));
    }

    /// The effect of a key on a non-empty step list with no transient
    /// message (see `key_effect`).
    fn apply_key(&mut self, key: Key) -> (action: BrowseAction)
        requires
            old(self).wf(),
            old(self).step_names@.len() > 0,
            old(self).transient_message is None,
            !old(self).help_modal_active,
        ensures
            final(self).wf(),
            old(self).same_run(*final(self)),
            final(self).shows(old(self).key_effect(key, old(self).unchanged_outcome())),
            action@ == old(self).key_effect(key, old(self).unchanged_outcome()).action,
    {
        match key {
            Key::Down => self.move_cursor(key),
            Key::Up => self.move_cursor(key),
            Key::Enter => self.toggle_key(key),
            Key::Other => {
                self.last_key_g = false;
                BrowseAction::Noop
            },
            Key::Char(ch) => {
                if ch == 'j' || ch == 'k' || ch == 'g' || ch == 'G' {
                    self.move_cursor(key)
                } else if ch == 'o' || ch == 'O' {
                    self.toggle_key(key)
                } else if ch == 'r' || ch == 'f' || ch == 'c' || ch == 'q' {
                    self.rerun_key(key)
                } else if ch == 'n' || ch == 'p' || ch == 'e' {
                    self.diagnostic_key(key)
                } else if ch == '?' {
                    self.last_key_g = false;
                    self.help_modal_active = true;
                    BrowseAction::Redraw
                } else {
                    self.last_key_g = false;
                    BrowseAction::Noop
                }
            },
        }
    }

    fn move_cursor(&mut self, key: Key) -> (action: BrowseAction)
        requires
            old(self).wf(),
            old(self).step_names@.len() > 0,
            key == Key::Down || key == Key::Up || key == Key::Char('j') || key == Key::Char('k')
                || key == Key::Char('g') || key == Key::Char('G'),
        ensures
            final(self).wf(),
            old(self).same_run(*final(self)),
            final(self).shows(old(self).key_effect(key, old(self).unchanged_outcome())),
            action@ == old(self).key_effect(key, old(self).unchanged_outcome()).action,
    {
        let n = self.step_names.len();
        if key == Key::Down || key == Key::Char('j') {
            self.cursor = if self.cursor + 1 < n {
                self.cursor + 1
            } else {
                n - 1
            };
        } else if key == Key::Up || key == Key::Char('k') {
            self.cursor = if self.cursor > 0 {
                self.cursor - 1
            } else {
                0
            };
        } else if key == Key::Char('g') {
            if !self.last_key_g {
                self.last_key_g = true;
                return BrowseAction::Noop;
            }
            self.cursor = 0;
        } else {
            self.cursor = n - 1;
        }
        self.last_key_g = false;
        BrowseAction::Redraw
    }

    fn toggle_key(&mut self, key: Key) -> (action: BrowseAction)
        requires
            old(self).wf(),
            old(self).step_names@.len() > 0,
            key == Key::Enter || key == Key::Char('o') || key == Key::Char('O'),
        ensures
            final(self).wf(),
            old(self).same_run(*final(self)),
            final(self).shows(old(self).key_effect(key, old(self).unchanged_outcome())),
            action@ == old(self).key_effect(key, old(self).unchanged_outcome()).action,
    {
        if key == Key::Char('O') {
            self.all_expanded = !self.all_expanded;
            let value = self.all_expanded;
            self.expand_all(value);
        } else {
            let c = self.cursor;
            let e = self.expanded[c];
            self.expanded.set(c, !e);
        }
        self.last_key_g = false;
        BrowseAction::Redraw
    }

    fn rerun_key(&mut self, key: Key) -> (action: BrowseAction)
        requires
            old(self).wf(),
            old(self).step_names@.len() > 0,
            old(self).transient_message is None,
            key == Key::Char('r') || key == Key::Char('f') || key == Key::Char('c') || key
                == Key::Char('q'),
        ensures
            final(self).wf(),
            old(self).same_run(*final(self)),
            final(self).shows(old(self).key_effect(key, old(self).unchanged_outcome())),
            action@ == old(self).key_effect(key, old(self).unchanged_outcome()).action,
    {
        if key == Key::Char('q') {
            return BrowseAction::Quit;
        }
        self.last_key_g = false;
        if key == Key::Char('r') {
            BrowseAction::Rerun
        } else if key == Key::Char('f') {
            if self.has_failed_step() {
                BrowseAction::RerunFailed
            } else {
                self.transient_message = Some("no failures to re-run".to_owned());
                BrowseAction::Redraw
            }
        } else {
            BrowseAction::RerunCursor(self.step_names[self.cursor].clone())
        }
    }

    fn diagnostic_key(&mut self, key: Key) -> (action: BrowseAction)
        requires
            old(self).wf(),
            old(self).step_names@.len() > 0,
            old(self).transient_message is None,
            key == Key::Char('n') || key == Key::Char('p') || key == Key::Char('e'),
        ensures
            final(self).wf(),
            old(self).same_run(*final(self)),
            final(self).shows(old(self).key_effect(key, old(self).unchanged_outcome())),
            action@ == old(self).key_effect(key, old(self).unchanged_outcome()).action,
    {
        if key == Key::Char('e') {
            self.open_current_diagnostic();
            return BrowseAction::Redraw;
        }
        self.last_key_g = false;
        let delta: i32 = if key == Key::Char('n') {
            1
        } else {
            -1
        };
        if !self.advance_diagnostic(delta) {
            self.transient_message = Some("no diagnostics on this step".to_owned());
        }
        BrowseAction::Redraw
    }

    /// Handles a key press in browse mode and returns what the caller is
    /// to do next (see `key_outcome`).
    pub fn handle_key(&mut self, key: Key) -> (action: BrowseAction)
        requires
            old(self).wf(),
        ensures
            final(self).wf(),
            old(self).same_run(*final(self)),
            final(self).shows(old(self).key_outcome(key)),
            action@ == old(self).key_outcome(key).action,
    {
        if self.help_modal_active {
            self.help_modal_active = false;
            self.last_key_g = false;
            return BrowseAction::Redraw;
        }
        let n = self.step_names.len();
        if n == 0 {
            return if key == Key::Char('q') {
                BrowseAction::Quit
            } else {
                BrowseAction::Noop
            };
        }
        let had_message = self.transient_message.is_some();
        self.transient_message = None;
        let ghost cleared = *self;
        assert(cleared.unchanged_outcome() == (KeyOutcome {
            transient: None,
            ..old(self).unchanged_outcome()
        }));
        assert(cleared.key_effect(key, cleared.unchanged_outcome()) == old(self).key_effect(
            key,
            KeyOutcome { transient: None, ..old(self).unchanged_outcome() },
        ));
        let action = self.apply_key(key);
        match action {
            BrowseAction::Noop => if had_message {
                BrowseAction::Redraw
            } else {
                BrowseAction::Noop
            },
            _ => action,
        }
    }

    /// Whether some step is marked failed.
    pub fn has_failed_step(&self) -> (b: bool)
        ensures
            b == any_failed_status(self.statuses@),
    {
        let mut i: usize = 0;
        while i < self.statuses.len()
            invariant
                i <= self.statuses@.len(),
                forall|j: int| 0 <= j < i ==> !(#[trigger] self.statuses@[j] is Failed),
            decreases self.statuses.len() - i,
        {
            match &self.statuses[i] {
                StepStatus::Failed(..) => {
                    assert(self.statuses@[i as int] is Failed);
                    return true;
                },
                _ => {},
            }
            i = i + 1;
        }
        false
    }
}


impl TtyDisplay {
    /// Index of the first step named `name`.
    pub fn index_of(&self, name: &str) -> (i: usize)
        requires
            position_of(strings_view(self.step_names@), name@) is Some,
        ensures
            position_of(strings_view(self.step_names@), name@) == Some(i as int),
    {
        let ghost names = strings_view(self.step_names@);
        proof {
            lemma_position_of_bounds(names, name@);
        }
        let target = name.to_owned();
        let mut i: usize = 0;
        while i < self.step_names.len()
            invariant
                i <= self.step_names@.len(),
                names == strings_view(self.step_names@),
                target@ == name@,
                forall|k: int| 0 <= k < i ==> names[k] != name@,
                position_of(names, name@) is Some,
            decreases self.step_names.len() - i,
        {
            if self.step_names[i] == target {
                proof {
                    lemma_position_of_exact(names, name@, i as int);
                }
                return i;
            }
            i = i + 1;
        }
        proof {
            lemma_position_of_bounds(names, name@);
        }
        0
    }

    /// Stores the paths that triggered the next run.
    pub fn set_trigger(&mut self, paths: &[String])
        ensures
            *final(self) == (TtyDisplay { trigger_paths: final(self).trigger_paths, ..*old(self) }),
            opt_strings(final(self).trigger_paths) == Some(strings_view(paths@)),
    {
        let mut v: Vec<String> = Vec::new();
        let mut i: usize = 0;
        while i < paths.len()
            invariant
                i <= paths@.len(),
                strings_view(v@) == strings_view(paths@).take(i as int),
            decreases paths.len() - i,
        {
            let ghost before = strings_view(v@);
            v.push(paths[i].clone());
            assert(strings_view(v@) =~= before.push(paths@[i as int]@));
            assert(strings_view(paths@).take(i + 1) =~= strings_view(paths@).take(i as int).push(
                paths@[i as int]@,
            ));
            i = i + 1;
        }
        assert(strings_view(paths@).take(i as int) =~= strings_view(paths@));
        self.trigger_paths = Some(v);
    }

    /// A run starts: every step is queued, browse state is reset, and the
    /// stored trigger is taken and returned (for the run header).
    pub fn run_started(&mut self, step_names: &[String]) -> (trigger: Option<Vec<String>>)
        requires
            old(self).run_count < usize::MAX,
        ensures
            final(self).wf(),
            final(self).run_count == old(self).run_count + 1,
            strings_view(final(self).step_names@) == strings_view(step_names@),
            forall|i: int| 0 <= i < step_names@.len() ==> {
                &&& #[trigger] final(self).statuses@[i] is Queued
                &&& final(self).step_outputs@[i]@.len() == 0
                &&& !final(self).expanded@[i]
                &&& final(self).parsed_diagnostics@[i]@.len() == 0
                &&& final(self).current_diagnostic@[i] == 0
            },
            !final(self).has_running,
            !final(self).all_expanded,
            final(self).cursor == 0,
            !final(self).browse_active,
            !final(self).last_key_g,
            final(self).browse_scroll == 0,
            final(self).hook_output_text@.len() == 0,
            final(self).transient_message is None,
            !final(self).hook_running,
            !final(self).help_modal_active,
            opt_strings(trigger) == opt_strings(old(self).trigger_paths),
            final(self).trigger_paths is None,
            opt_strings(final(self).last_trigger_paths) == opt_strings(old(self).trigger_paths),
            final(self).theme == old(self).theme,
            final(self).verbosity == old(self).verbosity,
            final(self).no_clear == old(self).no_clear,
            final(self).root == old(self).root,
            final(self).spinner_frame == old(self).spinner_frame,
            final(self).editor_request == old(self).editor_request,
    {
        self.run_count = self.run_count + 1;
        let n = step_names.len();
        let mut names: Vec<String> = Vec::new();
        let mut statuses: Vec<StepStatus> = Vec::new();
        let mut outputs: Vec<String> = Vec::new();
        let mut expanded: Vec<bool> = Vec::new();
        let mut diags: Vec<Vec<Diagnostic>> = Vec::new();
        let mut current: Vec<usize> = Vec::new();
        let mut i: usize = 0;
        while i < n
            invariant
                n == step_names@.len(),
                i <= n,
                strings_view(names@) == strings_view(step_names@).take(i as int),
                statuses@.len() == i,
                outputs@.len() == i,
                expanded@.len() == i,
                diags@.len() == i,
                current@.len() == i,
                forall|j: int| 0 <= j < i ==> {
                    &&& #[trigger] statuses@[j] is Queued
                    &&& outputs@[j]@.len() == 0
                    &&& !expanded@[j]
                    &&& diags@[j]@.len() == 0
                    &&& current@[j] == 0
                },
            decreases n - i,
        {
            let ghost before = strings_view(names@);
            names.push(step_names[i].clone());
            assert(strings_view(names@) =~= before.push(step_names@[i as int]@));
            assert(strings_view(step_names@).take(i + 1) =~= strings_view(step_names@).take(
                i as int,
            ).push(step_names@[i as int]@));
            statuses.push(StepStatus::Queued);
            outputs.push(String::new());
            expanded.push(false);
            diags.push(Vec::new());
            current.push(0);
            i = i + 1;
        }
        assert(strings_view(step_names@).take(n as int) =~= strings_view(step_names@));
        self.step_names = names;
        self.statuses = statuses;
        self.has_running = false;
        self.step_outputs = outputs;
        self.expanded = expanded;
        self.all_expanded = false;
        self.cursor = 0;
        self.browse_active = false;
        self.last_key_g = false;
        self.browse_scroll = 0;
        self.hook_output_text = String::new();
        self.transient_message = None;
        self.hook_running = false;
        self.parsed_diagnostics = diags;
        self.current_diagnostic = current;
        self.help_modal_active = false;
        assert forall|j: int|
            0 <= j < n && self.parsed_diagnostics@[j]@.len() > 0 implies #[trigger] self.current_diagnostic@[j]
                < self.parsed_diagnostics@[j]@.len() by {
            assert(self.statuses@[j] is Queued);
            assert(self.parsed_diagnostics@[j]@.len() == 0);
        }
        let trigger = self.trigger_paths.take();
        self.last_trigger_paths = match &trigger {
            Some(t) => Some(copy_strings(t)),
            None => None,
        };
        trigger
    }

    /// A step starts running.
    pub fn step_running(&mut self, name: &str)
        requires
            old(self).wf(),
            position_of(strings_view(old(self).step_names@), name@) is Some,
        ensures
            final(self).wf(),
            ({
                let i = position_of(strings_view(old(self).step_names@), name@)->0;
                &&& final(self).statuses@.len() == old(self).statuses@.len()
                &&& final(self).statuses@[i] is Running
                &&& forall|j: int|
                    0 <= j < old(self).statuses@.len() && j != i ==> final(self).statuses@[j]
                        == old(self).statuses@[j]
            }),
            final(self).has_running,
            *final(self) == (TtyDisplay {
                statuses: final(self).statuses,
                has_running: true,
                ..*old(self)
            }),
    {
        let i = self.index_of(name);
        proof {
            lemma_position_of_bounds(strings_view(self.step_names@), name@);
        }
        self.statuses.set(i, StepStatus::Running);
        self.has_running = true;
    }

    /// Whether some step is still running.
    fn any_running(&self) -> (b: bool)
        ensures
            b == any_running_status(self.statuses@),
    {
        let mut i: usize = 0;
        while i < self.statuses.len()
            invariant
                i <= self.statuses@.len(),
                forall|j: int| 0 <= j < i ==> !(#[trigger] self.statuses@[j] is Running),
            decreases self.statuses.len() - i,
        {
            match &self.statuses[i] {
                StepStatus::Running => {
                    assert(self.statuses@[i as int] is Running);
                    return true;
                },
                _ => {},
            }
            i = i + 1;
        }
        false
    }

    /// A step finished: it is marked passed, or failed with its short
    /// diagnostic.
    pub fn step_finished(&mut self, result: &StepResult)
        requires
            old(self).wf(),
            position_of(strings_view(old(self).step_names@), result.name@) is Some,
        ensures
            final(self).wf(),
            ({
                let i = position_of(strings_view(old(self).step_names@), result.name@)->0;
                &&& final(self).statuses@.len() == old(self).statuses@.len()
                &&& (result.success ==> (final(self).statuses@[i] matches StepStatus::Passed(d)
                    && d == result.duration))
                &&& (!result.success ==> (final(self).statuses@[i] matches StepStatus::Failed(d, t)
                    && d == result.duration && t@ == short_diagnostic_text(result@)))
                &&& forall|j: int|
                    0 <= j < old(self).statuses@.len() && j != i ==> final(self).statuses@[j]
                        == old(self).statuses@[j]
            }),
            final(self).has_running == any_running_status(final(self).statuses@),
            *final(self) == (TtyDisplay {
                statuses: final(self).statuses,
                has_running: final(self).has_running,
                ..*old(self)
            }),
    {
        let i = self.index_of(result.name.as_str());
        proof {
            lemma_position_of_bounds(strings_view(self.step_names@), result.name@);
        }
        let status = if result.success {
            StepStatus::Passed(result.duration)
        } else {
            StepStatus::Failed(result.duration, short_diagnostic(result))
        };
        self.statuses.set(i, status);
        self.has_running = self.any_running();
    }

    /// Steps were skipped because an earlier stage failed.
    pub fn steps_skipped(&mut self, names: &[String])
        requires
            old(self).wf(),
            forall|k: int|
                0 <= k < names@.len() ==> position_of(
                    strings_view(old(self).step_names@),
                    #[trigger] names@[k]@,
                ) is Some,
        ensures
            final(self).wf(),
            final(self).statuses@.len() == old(self).statuses@.len(),
            forall|k: int|
                0 <= k < names@.len() ==> final(self).statuses@[position_of(
                    strings_view(old(self).step_names@),
                    #[trigger] names@[k]@,
                )->0] is Skipped,
            forall|j: int|
                0 <= j < old(self).statuses@.len() && !(exists|k: int|
                    0 <= k < names@.len() && position_of(
                        strings_view(old(self).step_names@),
                        #[trigger] names@[k]@,
                    ) == Some(j)) ==> final(self).statuses@[j] == old(self).statuses@[j],
            *final(self) == (TtyDisplay { statuses: final(self).statuses, ..*old(self) }),
    {
        let ghost sn = strings_view(self.step_names@);
        let mut k: usize = 0;
        while k < names.len()
            invariant
                k <= names@.len(),
                self.wf(),
                sn == strings_view(self.step_names@),
                *self == (TtyDisplay { statuses: self.statuses, ..*old(self) }),
                self.statuses@.len() == old(self).statuses@.len(),
                forall|q: int|
                    0 <= q < names@.len() ==> position_of(sn, #[trigger] names@[q]@) is Some,
                forall|q: int|
                    0 <= q < k ==> self.statuses@[position_of(sn, #[trigger] names@[q]@)->0] is Skipped,
                forall|j: int|
                    0 <= j < old(self).statuses@.len() && !(exists|q: int|
                        0 <= q < k && position_of(sn, #[trigger] names@[q]@) == Some(j))
                        ==> self.statuses@[j] == old(self).statuses@[j],
            decreases names.len() - k,
        {
            let i = self.index_of(names[k].as_str());
            proof {
                lemma_position_of_bounds(sn, names@[k as int]@);
            }
            let ghost prev = self.statuses@;
            self.statuses.set(i, StepStatus::Skipped);
            proof {
                assert(position_of(sn, names@[k as int]@) == Some(i as int));
                assert forall|q: int| 0 <= q < k + 1 implies self.statuses@[position_of(
                    sn,
                    #[trigger] names@[q]@,
                )->0] is Skipped by {
                    lemma_position_of_bounds(sn, names@[q]@);
                    let p = position_of(sn, names@[q]@)->0;
                    if p != i {
                        assert(prev[p] is Skipped);
                    }
                }
                assert forall|j: int|
                    0 <= j < old(self).statuses@.len() && !(exists|q: int|
                        0 <= q < k + 1 && position_of(sn, #[trigger] names@[q]@) == Some(j))
                        implies self.statuses@[j] == old(self).statuses@[j] by {
                    assert(j != i);
                }
            }
            k = k + 1;
        }
    }

    /// The run was cancelled by a file change.
    pub fn run_cancelled(&mut self)
        ensures
            *final(self) == (TtyDisplay { has_running: false, ..*old(self) }),
    {
        self.has_running = false;
    }

    /// Advances the spinner when a step is running; returns whether the
    /// step list needs a redraw.
    pub fn tick(&mut self) -> (redraw: bool)
        ensures
            redraw == old(self).has_running,
            *final(self) == (TtyDisplay {
                spinner_frame: if old(self).has_running {
                    ((old(self).spinner_frame + 1) % (SPINNER_FRAME_COUNT as int)) as usize
                } else {
                    old(self).spinner_frame
                },
                ..*old(self)
            }),
    {
        if self.has_running {
            self.spinner_frame = if self.spinner_frame >= SPINNER_FRAME_COUNT - 1 {
                (self.spinner_frame - (SPINNER_FRAME_COUNT - 1)) % SPINNER_FRAME_COUNT
            } else {
                self.spinner_frame + 1
            };
            proof {
                let f = old(self).spinner_frame as int;
                if f + 1 >= SPINNER_FRAME_COUNT {
                    vstd::arithmetic::div_mod::lemma_mod_add_multiples_vanish(
                        f + 1 - SPINNER_FRAME_COUNT as int,
                        SPINNER_FRAME_COUNT as int,
                    );
                } else {
                    vstd::arithmetic::div_mod::lemma_small_mod((f + 1) as nat, SPINNER_FRAME_COUNT as nat);
                }
            }
            true
        } else {
            false
        }
    }

    pub fn enter_browse_mode(&mut self)
        ensures
            *final(self) == (TtyDisplay { browse_active: true, ..*old(self) }),
    {
        self.browse_active = true;
    }

    pub fn exit_browse_mode(&mut self)
        ensures
            *final(self) == (TtyDisplay { browse_active: false, ..*old(self) }),
    {
        self.browse_active = false;
    }

    /// The hook's output arrived: it is kept for the footer and the hook
    /// counts as settled.
    pub fn hook_output(&mut self, text: &str)
        ensures
            *final(self) == (TtyDisplay {
                hook_output_text: final(self).hook_output_text,
                hook_running: false,
                ..*old(self)
            }),
            final(self).hook_output_text@ == text@,
    {
        self.hook_output_text = text.to_owned();
        self.hook_running = false;
    }

    pub fn hook_started(&mut self)
        ensures
            *final(self) == (TtyDisplay { hook_running: true, ..*old(self) }),
    {
        self.hook_running = true;
    }

    pub fn hook_finished(&mut self)
        ensures
            *final(self) == (TtyDisplay { hook_running: false, ..*old(self) }),
    {
        self.hook_running = false;
    }

    /// The colour of the run divider: red once all steps settled and some
    /// failed, green once all settled and passed, dim while any is queued
    /// or running.
    pub fn divider_color(&self) -> (c: DividerColor)
        ensures
            c == (if all_settled_status(self.statuses@) && any_failed_status(self.statuses@) {
                DividerColor::Red
            } else if all_settled_status(self.statuses@) {
                DividerColor::Green
            } else {
                DividerColor::Dim
            }),
    {
        let mut settled = true;
        let mut i: usize = 0;
        while i < self.statuses.len()
            invariant
                i <= self.statuses@.len(),
                settled == (forall|j: int|
                    0 <= j < i ==> !(#[trigger] self.statuses@[j] is Running)
                        && !(self.statuses@[j] is Queued)),
            decreases self.statuses.len() - i,
        {
            let unsettled = match &self.statuses[i] {
                StepStatus::Running => true,
                StepStatus::Queued => true,
                _ => false,
            };
            if unsettled {
                assert(self.statuses@[i as int] is Running || self.statuses@[i as int] is Queued);
                settled = false;
            }
            i = i + 1;
        }
        let failed = self.has_failed_step();
        if settled && failed {
            DividerColor::Red
        } else if settled {
            DividerColor::Green
        } else {
            DividerColor::Dim
        }
    }

    /// Adjusts the browse viewport so the cursor step is visible: scrolls
    /// up to its top, or down until its last row fits, and never past the
    /// end of the content.
    pub fn adjust_scroll(&mut self, cursor_top: usize, cursor_rows: usize, viewport: usize, total: usize)
        requires
            cursor_top + cursor_rows <= usize::MAX,
            old(self).browse_scroll + viewport <= usize::MAX,
        ensures
            ({
                let s0 = old(self).browse_scroll as int;
                let s1 = if cursor_top < s0 {
                    cursor_top as int
                } else if cursor_top + cursor_rows > s0 + viewport {
                    cursor_top + cursor_rows - viewport
                } else {
                    s0
                };
                let limit = if total >= viewport {
                    total - viewport
                } else {
                    0
                };
                final(self).browse_scroll == if s1 < limit {
                    s1
                } else {
                    limit
                }
            }),
            *final(self) == (TtyDisplay { browse_scroll: final(self).browse_scroll, ..*old(self) }),
    {
        let mut scroll = self.browse_scroll;
        if cursor_top < scroll {
            scroll = cursor_top;
        } else if cursor_top + cursor_rows > scroll + viewport {
            scroll = cursor_top + cursor_rows - viewport;
        }
        let limit = if total >= viewport {
            total - viewport
        } else {
            0
        };
        self.browse_scroll = if scroll < limit {
            scroll
        } else {
            limit
        };
    }
}


impl TtyDisplay {
    /// Index of the first step named `name`, if any.
    pub fn position(&self, name: &str) -> (r: Option<usize>)
        ensures
            match r {
                Some(i) => position_of(strings_view(self.step_names@), name@) == Some(i as int),
                None => position_of(strings_view(self.step_names@), name@) is None,
            },
    {
        let ghost names = strings_view(self.step_names@);
        proof {
            lemma_position_of_bounds(names, name@);
        }
        let target = name.to_owned();
        let mut i: usize = 0;
        while i < self.step_names.len()
            invariant
                i <= self.step_names@.len(),
                names == strings_view(self.step_names@),
                target@ == name@,
                forall|k: int| 0 <= k < i ==> names[k] != name@,
            decreases self.step_names.len() - i,
        {
            if self.step_names[i] == target {
                proof {
                    lemma_position_of_exact(names, name@, i as int);
                }
                return Some(i);
            }
            i = i + 1;
        }
        proof {
            lemma_position_of_bounds(names, name@);
            if position_of(names, name@) is Some {
                let p = position_of(names, name@)->0;
                assert(names[p] == name@);
            }
        }
        None
    }

    /// Shows one result in browse mode: its clipped output, expanded when
    /// it failed, and the diagnostics of its full output.
    fn show_result(&mut self, i: usize, r: &StepResult)
        requires
            old(self).wf(),
            i < old(self).step_names@.len(),
        ensures
            final(self).wf(),
            final(self).step_outputs@ == old(self).step_outputs@.update(
                i as int,
                final(self).step_outputs@[i as int],
            ),
            final(self).step_outputs@[i as int]@ == truncated_output(r.stdout@, r.stderr@),
            final(self).expanded@ == old(self).expanded@.update(i as int, !r.success),
            final(self).parsed_diagnostics@ == old(self).parsed_diagnostics@.update(
                i as int,
                final(self).parsed_diagnostics@[i as int],
            ),
            diags_view(final(self).parsed_diagnostics@[i as int]@) == collect_diagnostics(
                lines(combined_output(r.stdout@, r.stderr@)),
            ),
            final(self).current_diagnostic@ == old(self).current_diagnostic@.update(i as int, 0),
            *final(self) == (TtyDisplay {
                step_outputs: final(self).step_outputs,
                expanded: final(self).expanded,
                parsed_diagnostics: final(self).parsed_diagnostics,
                current_diagnostic: final(self).current_diagnostic,
                ..*old(self)
            }),
    {
        self.step_outputs.set(i, format_truncated_output(r.stdout.as_str(), r.stderr.as_str()));
        self.expanded.set(i, !r.success);
        let combined = combine_output(r.stdout.as_str(), r.stderr.as_str());
        self.parsed_diagnostics.set(i, parse(combined.as_str()));
        self.current_diagnostic.set(i, 0);
        proof {
            assert forall|j: int|
                0 <= j < self.step_names@.len() && self.parsed_diagnostics@[j]@.len()
                    > 0 implies #[trigger] self.current_diagnostic@[j]
                < self.parsed_diagnostics@[j]@.len() by {
                if j != i {
                    assert(self.parsed_diagnostics@[j] == old(self).parsed_diagnostics@[j]);
                    assert(self.current_diagnostic@[j] == old(self).current_diagnostic@[j]);
                }
            }
        }
    }

    /// The run finished: each step's output is captured for browse mode
    /// (failed ones expanded), the cursor goes to the first failure, and
    /// the footer's counts are returned. A file-change run that matched no
    /// step leaves a message saying so.
    pub fn run_finished(&mut self, results: &[StepResult]) -> (tally: RunTally)
        requires
            old(self).wf(),
        ensures
            final(self).wf(),
            ({
                let names = strings_view(old(self).step_names@);
                let rs = results_view(results@);
                forall|i: int|
                    0 <= i < names.len() ==> match #[trigger] result_for_step(names, rs, i) {
                        Some(j) => {
                            &&& final(self).step_outputs@[i]@ == truncated_output(
                                rs[j].stdout,
                                rs[j].stderr,
                            )
                            &&& final(self).expanded@[i] == !rs[j].success
                            &&& diags_view(final(self).parsed_diagnostics@[i]@)
                                == collect_diagnostics(
                                lines(combined_output(rs[j].stdout, rs[j].stderr)),
                            )
                            &&& final(self).current_diagnostic@[i] == 0
                        },
                        None => {
                            &&& final(self).step_outputs@[i] == old(self).step_outputs@[i]
                            &&& final(self).expanded@[i] == old(self).expanded@[i]
                            &&& final(self).parsed_diagnostics@[i]
                                == old(self).parsed_diagnostics@[i]
                            &&& final(self).current_diagnostic@[i]
                                == old(self).current_diagnostic@[i]
                        },
                    }
            }),
            final(self).cursor == start_cursor(
                strings_view(old(self).step_names@),
                results_view(results@),
            ),
            final(self).all_expanded == (count_failed(results_view(results@)) > 0),
            tally.failed == count_failed(results_view(results@)),
            tally.passed == results@.len() - count_failed(results_view(results@)),
            tally.skipped == (if old(self).step_names@.len() >= results@.len() {
                old(self).step_names@.len() - results@.len()
            } else {
                0
            }),
            tally.show_footer == !(old(self).verbosity == Verbosity::Quiet && count_failed(
                results_view(results@),
            ) == 0),
            opt_text(final(self).transient_message) == (if tally.show_footer && results@.len() == 0
                && old(self).last_trigger_paths is Some {
                Some(no_match_message(opt_strings(old(self).last_trigger_paths)->0))
            } else {
                opt_text(old(self).transient_message)
            }),
            *final(self) == (TtyDisplay {
                step_outputs: final(self).step_outputs,
                expanded: final(self).expanded,
                parsed_diagnostics: final(self).parsed_diagnostics,
                current_diagnostic: final(self).current_diagnostic,
                cursor: final(self).cursor,
                all_expanded: final(self).all_expanded,
                has_running: false,
                transient_message: final(self).transient_message,
                ..*old(self)
            }),
    {
        self.has_running = false;
        let ghost names = strings_view(self.step_names@);
        let ghost rs = results_view(results@);
        let ghost start = *self;
        let n = self.step_names.len();
        let mut k: usize = 0;
        while k < results.len()
            invariant
                k <= results@.len(),
                self.wf(),
                n == self.step_names@.len(),
                names == strings_view(self.step_names@),
                rs == results_view(results@),
                *self == (TtyDisplay {
                    step_outputs: self.step_outputs,
                    expanded: self.expanded,
                    parsed_diagnostics: self.parsed_diagnostics,
                    current_diagnostic: self.current_diagnostic,
                    ..start
                }),
                forall|i: int|
                    0 <= i < n ==> match #[trigger] result_for_step(names, rs.take(k as int), i) {
                        Some(j) => {
                            &&& self.step_outputs@[i]@ == truncated_output(
                                rs[j].stdout,
                                rs[j].stderr,
                            )
                            &&& self.expanded@[i] == !rs[j].success
                            &&& diags_view(self.parsed_diagnostics@[i]@) == collect_diagnostics(
                                lines(combined_output(rs[j].stdout, rs[j].stderr)),
                            )
                            &&& self.current_diagnostic@[i] == 0
                        },
                        None => {
                            &&& self.step_outputs@[i] == start.step_outputs@[i]
                            &&& self.expanded@[i] == start.expanded@[i]
                            &&& self.parsed_diagnostics@[i] == start.parsed_diagnostics@[i]
                            &&& self.current_diagnostic@[i] == start.current_diagnostic@[i]
                        },
                    },
            decreases results.len() - k,
        {
            let r = &results[k];
            let ghost nm = r.name@;
            let ghost before = *self;
            proof {
                assert(rs.take(k + 1).drop_last() =~= rs.take(k as int));
                assert(rs.take(k + 1).last() == rs[k as int]);
                assert(rs[k as int] == r@);
                lemma_position_of_bounds(names, nm);
            }
            match self.position(r.name.as_str()) {
                Some(i) => {
                    self.show_result(i, r);
                    proof {
                        assert forall|q: int| 0 <= q < n implies match #[trigger] result_for_step(
                            names,
                            rs.take(k + 1),
                            q,
                        ) {
                            Some(j) => {
                                &&& self.step_outputs@[q]@ == truncated_output(
                                    rs[j].stdout,
                                    rs[j].stderr,
                                )
                                &&& self.expanded@[q] == !rs[j].success
                                &&& diags_view(self.parsed_diagnostics@[q]@)
                                    == collect_diagnostics(
                                    lines(combined_output(rs[j].stdout, rs[j].stderr)),
                                )
                                &&& self.current_diagnostic@[q] == 0
                            },
                            None => {
                                &&& self.step_outputs@[q] == start.step_outputs@[q]
                                &&& self.expanded@[q] == start.expanded@[q]
                                &&& self.parsed_diagnostics@[q] == start.parsed_diagnostics@[q]
                                &&& self.current_diagnostic@[q] == start.current_diagnostic@[q]
                            },
                        } by {
                            assert(result_for_step(names, rs.take(k as int), q) == result_for_step(
                                names,
                                rs.take(k as int),
                                q,
                            ));
                            lemma_position_of_bounds(names, names[q]);
                            if q == i {
                                assert(names[q] == nm);
                                assert(result_for_step(names, rs.take(k + 1), q) == Some(k as int));
                            } else if names[q] == nm {
                                assert(position_of(names, names[q]) == Some(i as int));
                                assert(result_for_step(names, rs.take(k + 1), q) is None);
                                assert(result_for_step(names, rs.take(k as int), q) is None);
                            } else {
                                assert(result_for_step(names, rs.take(k + 1), q) == result_for_step(
                                    names,
                                    rs.take(k as int),
                                    q,
                                ));
                            }
                        }
                    }
                },
                None => {
                    proof {
                        assert forall|q: int| 0 <= q < n implies #[trigger] result_for_step(
                            names,
                            rs.take(k + 1),
                            q,
                        ) == result_for_step(names, rs.take(k as int), q) by {
                            assert(names[q] != nm);
                        }
                    }
                },
            }
            k = k + 1;
        }
        assert(rs.take(results@.len() as int) =~= rs);
        // The cursor starts on the first failure.
        let mut failed: usize = 0;
        let mut first: Option<usize> = None;
        let mut j: usize = 0;
        while j < results.len()
            invariant
                j <= results@.len(),
                rs == results_view(results@),
                failed == count_failed(rs.take(j as int)),
                failed <= j,
                match first {
                    Some(f) => first_failed(rs.take(j as int)) == Some(f as int),
                    None => first_failed(rs.take(j as int)) is None,
                },
            decreases results.len() - j,
        {
            proof {
                assert(rs.take(j + 1).drop_last() =~= rs.take(j as int));
                assert(rs.take(j + 1).last() == results@[j as int]@);
            }
            if !results[j].success {
                failed = failed + 1;
                if first.is_none() {
                    first = Some(j);
                }
            }
            j = j + 1;
        }
        proof {
            if first is Some {
                let f = first->0;
                lemma_first_failed_bounds(rs.take(j as int));
            }
        }
        self.cursor = match first {
            Some(f) => match self.position(results[f].name.as_str()) {
                Some(i) => i,
                None => 0,
            },
            None => 0,
        };
        proof {
            if first is Some {
                let f = first->0;
                assert(rs[f as int] == results@[f as int]@);
                lemma_position_of_bounds(names, rs[f as int].name);
            }
        }
        self.all_expanded = failed > 0;
        let passed = results.len() - failed;
        let skipped = if n >= results.len() {
            n - results.len()
        } else {
            0
        };
        let quiet = match self.verbosity {
            Verbosity::Quiet => true,
            _ => false,
        };
        let show_footer = !(quiet && failed == 0);
        if show_footer && results.len() == 0 {
            match &self.last_trigger_paths {
                Some(t) => {
                    self.transient_message = Some(no_match_text(t));
                },
                None => {},
            }
        }
        RunTally { failed, passed, skipped, show_footer }
    }
}

proof fn lemma_first_failed_bounds(rs: Seq<StepResultView>)
    ensures
        first_failed(rs) matches Some(j) ==> 0 <= j < rs.len(),
    decreases rs.len(),
{
    if rs.len() > 0 {
        lemma_first_failed_bounds(rs.drop_last());
    }
}

/// The "no steps match" message for a trigger (see `no_match_message`).
fn no_match_text(trigger: &Vec<String>) -> (s: String)
    ensures
        s@ == no_match_message(strings_view(trigger@)),
{
    let mut s = String::new();
    if trigger.len() == 1 {
        push_str(&mut s, "no steps match changed path: ");
        push_str(&mut s, trigger[0].as_str());
        assert(strings_view(trigger@)[0] == trigger@[0]@);
    } else if trigger.len() > 1 {
        push_str(&mut s, "no steps match ");
        let count = u64_to_text(trigger.len() as u64);
        push_str(&mut s, count.as_str());
        push_str(&mut s, " changed paths");
    } else {
        push_str(&mut s, "no steps match changed paths");
    }
    s
}


// ── Failed steps and the `f` key ───────────────────────────────────────────

/// One change of a step's status during a run, by the step's index: what
/// `step_running`, `step_finished` (with its success) and `steps_skipped`
/// (once per name) do.
pub enum StatusUpdate {
    Running(int),
    Finished(int, bool),
    Skipped(int),
}

pub open spec fn update_index(u: StatusUpdate) -> int {
    match u {
        StatusUpdate::Running(i) => i,
        StatusUpdate::Finished(i, _) => i,
        StatusUpdate::Skipped(i) => i,
    }
}

/// `after` is `before` with the update `u` applied: the step it names takes
/// the new status and every other step keeps its own.
pub open spec fn updated_by(before: Seq<StepStatus>, after: Seq<StepStatus>, u: StatusUpdate) -> bool {
    let i = update_index(u);
    &&& 0 <= i < before.len()
    &&& after.len() == before.len()
    &&& forall|j: int| 0 <= j < before.len() && j != i ==> #[trigger] after[j] == before[j]
    &&& match u {
        StatusUpdate::Running(_) => after[i] is Running,
        StatusUpdate::Finished(_, ok) => if ok {
            after[i] is Passed
        } else {
            after[i] is Failed
        },
        StatusUpdate::Skipped(_) => after[i] is Skipped,
    }
}

/// The last update of step `i` in `ups`.
pub open spec fn last_update(ups: Seq<StatusUpdate>, i: int) -> Option<StatusUpdate>
    decreases ups.len(),
{
    if ups.len() == 0 {
        None
    } else if update_index(ups.last()) == i {
        Some(ups.last())
    } else {
        last_update(ups.drop_last(), i)
    }
}

proof fn lemma_history_failed(history: Seq<Seq<StepStatus>>, ups: Seq<StatusUpdate>, k: int)
    requires
        0 <= k <= ups.len(),
        history.len() == ups.len() + 1,
        forall|i: int| 0 <= i < history[0].len() ==> #[trigger] history[0][i] is Queued,
        forall|m: int| 0 <= m < ups.len() ==> updated_by(#[trigger] history[m], history[m + 1], ups[m]),
    ensures
        history[k].len() == history[0].len(),
        forall|i: int|
            0 <= i < history[0].len() ==> (#[trigger] history[k][i] is Failed <==> last_update(
                ups.take(k),
                i,
            ) == Some(StatusUpdate::Finished(i, false))),
    decreases k,
{
    if k == 0 {
        assert forall|i: int| 0 <= i < history[0].len() implies (#[trigger] history[k][i] is Failed
            <==> last_update(ups.take(k), i) == Some(StatusUpdate::Finished(i, false))) by {
            assert(history[0][i] is Queued);
            assert(ups.take(0).len() == 0);
        }
    } else {
        lemma_history_failed(history, ups, k - 1);
        let u = ups[k - 1];
        assert(updated_by(history[k - 1], history[k], u));
        assert(ups.take(k).drop_last() =~= ups.take(k - 1));
        assert(ups.take(k).last() == u);
        assert forall|i: int| 0 <= i < history[0].len() implies (#[trigger] history[k][i] is Failed
            <==> last_update(ups.take(k), i) == Some(StatusUpdate::Finished(i, false))) by {
            if i != update_index(u) {
                assert(history[k][i] == history[k - 1][i]);
            } else {
                match u {
                    StatusUpdate::Finished(_, ok) => {},
                    _ => {},
                }
            }
        }
    }
}

/// During a run, `f` in browse mode asks to rerun the failed steps exactly
/// when some step's latest update since `run_started` (which sets every
/// step queued) was a failed finish; otherwise it shows "no failures to
/// re-run". `history` holds the statuses after each update.
pub proof fn law_rerun_failed_iff_a_step_failed(
    d: TtyDisplay,
    history: Seq<Seq<StepStatus>>,
    ups: Seq<StatusUpdate>,
)
    requires
        d.wf(),
        d.step_names@.len() > 0,
        !d.help_modal_active,
        history.len() == ups.len() + 1,
        history[0].len() == d.step_names@.len(),
        forall|i: int| 0 <= i < history[0].len() ==> #[trigger] history[0][i] is Queued,
        forall|m: int| 0 <= m < ups.len() ==> updated_by(#[trigger] history[m], history[m + 1], ups[m]),
        d.statuses@ == history.last(),
    ensures
        (d.key_outcome(Key::Char('f')).action == BrowseActionView::RerunFailed) <==> exists|i: int|
            0 <= i < d.step_names@.len() && #[trigger] last_update(ups, i) == Some(
                StatusUpdate::Finished(i, false),
            ),
        d.key_outcome(Key::Char('f')).action != BrowseActionView::RerunFailed ==> d.key_outcome(
            Key::Char('f'),
        ).transient == Some(no_failures_message()),
{
    lemma_history_failed(history, ups, ups.len() as int);
    assert(ups.take(ups.len() as int) =~= ups);
    assert(history.last() == history[ups.len() as int]);
    let n = d.step_names@.len();
    if any_failed_status(d.statuses@) {
        let i = choose|i: int| 0 <= i < d.statuses@.len() && #[trigger] d.statuses@[i] is Failed;
        assert(last_update(ups, i) == Some(StatusUpdate::Finished(i, false)));
    } else {
        assert forall|i: int| 0 <= i < n implies #[trigger] last_update(ups, i) != Some(
            StatusUpdate::Finished(i, false),
        ) by {
            assert(!(d.statuses@[i] is Failed));
        }
    }
}

// ── Plain (append-only) display ─────────────────────────────────────────────

/// The state of the append-only display for pipes and CI: it decides what
/// is printed; the caller prefixes timestamps and prints.
pub struct PlainDisplay {
    pub theme: Theme,
    pub verbosity: Verbosity,
    pub trigger_paths: Option<Vec<String>>,
    pub run_count: usize,
    /// Whether the run that just started was triggered by file changes.
    pub last_run_triggered: bool,
}

/// What the plain display prints when a run finishes.
#[derive(Debug, Clone, Copy, PartialEq, Eq)]
pub struct PlainSummary {
    pub failed: usize,
    pub passed: usize,
    /// Whether the `run complete` line is printed.
    pub show_summary: bool,
    /// Whether passing steps' output is printed too.
    pub show_passing_output: bool,
    /// Whether `no steps match changed paths` is printed.
    pub no_match: bool,
}

pub open spec fn is_quiet(v: Verbosity) -> bool {
    v == Verbosity::Quiet
}

/// `Verbose` or `Debug`.
pub open spec fn at_least_verbose(v: Verbosity) -> bool {
    v == Verbosity::Verbose || v == Verbosity::Debug
}

pub open spec fn run_started_line(run: nat, trigger: Option<Seq<Seq<char>>>) -> Seq<char> {
    "run #"@ + decimal(run) + " started"@ + trigger_suffix(trigger)
}

fn quiet(v: Verbosity) -> (b: bool)
    ensures
        b == is_quiet(v),
{
    match v {
        Verbosity::Quiet => true,
        _ => false,
    }
}

impl PlainDisplay {
    pub fn new(theme: Theme, verbosity: Verbosity) -> (d: Self)
        ensures
            d.theme == theme,
            d.verbosity == verbosity,
            d.trigger_paths is None,
            d.run_count == 0,
            !d.last_run_triggered,
    {
        PlainDisplay { theme, verbosity, trigger_paths: None, run_count: 0, last_run_triggered: false }
    }

    /// Stores the paths that triggered the next run.
    pub fn set_trigger(&mut self, paths: &[String])
        ensures
            opt_strings(final(self).trigger_paths) == Some(strings_view(paths@)),
            *final(self) == (PlainDisplay { trigger_paths: final(self).trigger_paths, ..*old(self) }),
    {
        let mut v: Vec<String> = Vec::new();
        let mut i: usize = 0;
        while i < paths.len()
            invariant
                i <= paths@.len(),
                strings_view(v@) == strings_view(paths@).take(i as int),
            decreases paths.len() - i,
        {
            let ghost before = strings_view(v@);
            v.push(paths[i].clone());
            assert(strings_view(v@) =~= before.push(paths@[i as int]@));
            assert(strings_view(paths@).take(i + 1) =~= strings_view(paths@).take(i as int).push(
                paths@[i as int]@,
            ));
            i = i + 1;
        }
        assert(strings_view(paths@).take(i as int) =~= strings_view(paths@));
        self.trigger_paths = Some(v);
    }

    /// A run starts: the run is counted and its trigger taken. Returns the
    /// `run #N started` line unless quiet.
    pub fn run_started(&mut self) -> (line: Option<String>)
        requires
            old(self).run_count < usize::MAX,
        ensures
            final(self).run_count == old(self).run_count + 1,
            final(self).trigger_paths is None,
            final(self).last_run_triggered == (old(self).trigger_paths is Some),
            final(self).theme == old(self).theme,
            final(self).verbosity == old(self).verbosity,
            match line {
                Some(l) => !is_quiet(old(self).verbosity) && l@ == run_started_line(
                    final(self).run_count as nat,
                    opt_strings(old(self).trigger_paths),
                ),
                None => is_quiet(old(self).verbosity),
            },
    {
        self.run_count = self.run_count + 1;
        let trigger = self.trigger_paths.take();
        self.last_run_triggered = trigger.is_some();
        if quiet(self.verbosity) {
            return None;
        }
        let mut l = String::new();
        push_str(&mut l, "run #");
        let count = u64_to_text(self.run_count as u64);
        push_str(&mut l, count.as_str());
        push_str(&mut l, " started");
        let suffix = match &trigger {
            Some(t) => format_trigger_suffix(Some(t.as_slice())),
            None => format_trigger_suffix(None),
        };
        push_str(&mut l, suffix.as_str());
        Some(l)
    }

    /// Whether a finished step gets a line: always, except a passing step
    /// on a quiet display.
    pub fn shows_step_finished(&self, result: &StepResult) -> (b: bool)
        ensures
            b == !(is_quiet(self.verbosity) && result.success),
    {
        !(quiet(self.verbosity) && result.success)
    }

    /// Whether progress lines (running, skipped, cancelled, hook) are
    /// printed: unless quiet.
    pub fn shows_progress(&self) -> (b: bool)
        ensures
            b == !is_quiet(self.verbosity),
    {
        !quiet(self.verbosity)
    }

    /// What is printed when a run finishes: failure blocks always, passing
    /// output when verbose, the summary unless quiet with no failure, and a
    /// note when a file-change run matched no step.
    pub fn run_finished(&self, results: &[StepResult]) -> (s: PlainSummary)
        ensures
            s.failed == count_failed(results_view(results@)),
            s.passed == results@.len() - count_failed(results_view(results@)),
            s.show_summary == (!is_quiet(self.verbosity) || s.failed > 0),
            s.show_passing_output == at_least_verbose(self.verbosity),
            s.no_match == (results@.len() == 0 && self.last_run_triggered && !is_quiet(
                self.verbosity,
            )),
    {
        let ghost rs = results_view(results@);
        let mut failed: usize = 0;
        let mut j: usize = 0;
        while j < results.len()
            invariant
                j <= results@.len(),
                rs == results_view(results@),
                failed == count_failed(rs.take(j as int)),
                failed <= j,
            decreases results.len() - j,
        {
            proof {
                assert(rs.take(j + 1).drop_last() =~= rs.take(j as int));
                assert(rs.take(j + 1).last() == results@[j as int]@);
            }
            if !results[j].success {
                failed = failed + 1;
            }
            j = j + 1;
        }
        assert(rs.take(j as int) =~= rs);
        let q = quiet(self.verbosity);
        let verbose = match self.verbosity {
            Verbosity::Verbose => true,
            Verbosity::Debug => true,
            _ => false,
        };
        PlainSummary {
            failed,
            passed: results.len() - failed,
            show_summary: !q || failed > 0,
            show_passing_output: verbose,
            no_match: results.len() == 0 && self.last_run_triggered && !q,
        }
    }
}


// ── Browse-mode viewport ────────────────────────────────────────────────────

/// How many of the lines `rows` (their heights in rows) the scroll offset
/// `skip` hides. A line partly above the offset is hidden whole rather
/// than printed from its middle.
pub open spec fn hidden_lines(rows: Seq<usize>, skip: int) -> nat
    decreases rows.len(),
{
    if skip <= 0 || rows.len() == 0 {
        0
    } else if skip >= rows[0] {
        1 + hidden_lines(rows.drop_first(), skip - rows[0])
    } else {
        1
    }
}

/// How many of the lines `rows` are printed into `room` rows: lines are
/// printed while fewer than `room` rows were used.
pub open spec fn printed_lines(rows: Seq<usize>, room: int) -> nat
    decreases rows.len(),
{
    if rows.len() == 0 || room <= 0 {
        0
    } else {
        1 + printed_lines(rows.drop_first(), room - rows[0])
    }
}

pub open spec fn rows_sum(rows: Seq<usize>) -> nat
    decreases rows.len(),
{
    if rows.len() == 0 {
        0
    } else {
        rows[0] as nat + rows_sum(rows.drop_first())
    }
}

proof fn lemma_hidden_bounds(rows: Seq<usize>, skip: int)
    ensures
        hidden_lines(rows, skip) <= rows.len(),
    decreases rows.len(),
{
    if skip > 0 && rows.len() > 0 && skip >= rows[0] {
        lemma_hidden_bounds(rows.drop_first(), skip - rows[0]);
    }
}

proof fn lemma_printed_bounds(rows: Seq<usize>, room: int)
    ensures
        printed_lines(rows, room) <= rows.len(),
    decreases rows.len(),
{
    if rows.len() > 0 && room > 0 {
        lemma_printed_bounds(rows.drop_first(), room - rows[0]);
    }
}

proof fn lemma_rows_sum_push(rows: Seq<usize>, k: int)
    requires
        0 <= k < rows.len(),
    ensures
        rows_sum(rows.take(k + 1)) == rows_sum(rows.take(k)) + rows[k],
    decreases k,
{
    if k > 0 {
        assert(rows.take(k + 1).drop_first() =~= rows.drop_first().take(k));
        assert(rows.take(k).drop_first() =~= rows.drop_first().take(k - 1));
        assert(rows.take(k + 1)[0] == rows[0]);
        assert(rows.take(k)[0] == rows[0]);
        assert(rows.drop_first()[k - 1] == rows[k]);
        lemma_rows_sum_push(rows.drop_first(), k - 1);
    } else {
        assert(rows.take(1).drop_first() =~= Seq::<usize>::empty());
        assert(rows.take(1)[0] == rows[0]);
        assert(rows.take(0) =~= Seq::<usize>::empty());
    }
}

/// Which lines the browse viewport prints: the lines from `start` to
/// `end`, taking `used` rows, for the line heights `rows`, the scroll
/// offset and a viewport of `viewport` rows.
pub fn clip_to_viewport(rows: &[usize], scroll: usize, viewport: usize) -> (r: (usize, usize, usize))
    ensures
        r.0 == hidden_lines(rows@, scroll as int),
        r.1 == r.0 + printed_lines(rows@.skip(r.0 as int), viewport as int),
        r.1 <= rows@.len(),
        r.2 == (if rows_sum(rows@.subrange(r.0 as int, r.1 as int)) > usize::MAX {
            usize::MAX as nat
        } else {
            rows_sum(rows@.subrange(r.0 as int, r.1 as int))
        }),
{
    let mut skip = scroll;
    let mut i: usize = 0;
    proof {
        lemma_hidden_bounds(rows@, scroll as int);
        assert(rows@.skip(0) =~= rows@);
    }
    // Hide the lines above the scroll offset.
    while i < rows.len() && skip > 0
        invariant
            i <= rows@.len(),
            i + hidden_lines(rows@.skip(i as int), skip as int) == hidden_lines(rows@, scroll as int),
        decreases rows.len() - i,
    {
        proof {
            assert(rows@.skip(i as int).drop_first() =~= rows@.skip(i + 1));
            assert(rows@.skip(i as int)[0] == rows@[i as int]);
        }
        if skip >= rows[i] {
            skip = skip - rows[i];
        } else {
            skip = 0;
            assert(hidden_lines(rows@.skip(i + 1), 0) == 0);
        }
        i = i + 1;
    }
    let start = i;
    assert(hidden_lines(rows@.skip(start as int), skip as int) == 0);
    let mut used: usize = 0;
    let mut j = start;
    proof {
        lemma_printed_bounds(rows@.skip(start as int), viewport as int);
        assert(rows@.subrange(start as int, start as int) =~= Seq::<usize>::empty());
    }
    while j < rows.len() && used < viewport
        invariant
            start <= j <= rows@.len(),
            (j - start) + printed_lines(rows@.skip(j as int), viewport - used) == printed_lines(
                rows@.skip(start as int),
                viewport as int,
            ),
            used == (if rows_sum(rows@.subrange(start as int, j as int)) > usize::MAX {
                usize::MAX as nat
            } else {
                rows_sum(rows@.subrange(start as int, j as int))
            }),
            used < viewport ==> used == rows_sum(rows@.subrange(start as int, j as int)),
        decreases rows.len() - j,
    {
        proof {
            assert(rows@.skip(j as int).drop_first() =~= rows@.skip(j + 1));
            assert(rows@.skip(j as int)[0] == rows@[j as int]);
            lemma_rows_sum_push(rows@.subrange(start as int, rows@.len() as int), j - start);
            assert(rows@.subrange(start as int, rows@.len() as int).take(j - start + 1)
                =~= rows@.subrange(start as int, j + 1));
            assert(rows@.subrange(start as int, rows@.len() as int).take(j - start)
                =~= rows@.subrange(start as int, j as int));
        }
        proof {
            assert(printed_lines(rows@.skip(j as int), viewport - used) == 1 + printed_lines(
                rows@.skip(j + 1),
                viewport - used - rows@[j as int],
            ));
        }
        let ghost old_used = used;
        used = if rows[j] > usize::MAX - used {
            usize::MAX
        } else {
            used + rows[j]
        };
        proof {
            if used >= viewport {
                assert(viewport - used <= 0);
                assert(viewport - old_used - rows@[j as int] <= 0);
                assert(printed_lines(rows@.skip(j + 1), viewport - used) == 0);
                assert(printed_lines(rows@.skip(j + 1), viewport - old_used - rows@[j as int]) == 0);
            }
        }
        j = j + 1;
    }
    (start, j, used)
}


// ── Banner and editor command ───────────────────────────────────────────────

pub open spec fn plain_banner_text(
    root: Seq<char>,
    config_path: Seq<char>,
    profile: Option<Seq<char>>,
) -> Seq<char> {
    "baraddur: watching "@ + root + "\n          (config: "@ + config_path + ")"@ + match profile {
        Some(p) => "\n          (profile: "@ + p + ")"@,
        None => seq![],
    }
}

/// The startup banner of the plain display.
pub fn plain_banner(root: &str, config_path: &str, profile: Option<&str>) -> (s: String)
    ensures
        s@ == plain_banner_text(root@, config_path@, match profile {
            Some(p) => Some(p@),
            None => None,
        }),
{
    let mut s = String::new();
    push_str(&mut s, "baraddur: watching ");
    push_str(&mut s, root);
    push_str(&mut s, "\n          (config: ");
    push_str(&mut s, config_path);
    push_str(&mut s, ")");
    match profile {
        Some(p) => {
            push_str(&mut s, "\n          (profile: ");
            push_str(&mut s, p);
            push_str(&mut s, ")");
        },
        None => {},
    }
    s
}

/// The editor to use: `$VISUAL`, else `$EDITOR`, else `vi`.
pub open spec fn chosen_editor(visual: Option<Seq<char>>, editor: Option<Seq<char>>) -> Seq<char> {
    match visual {
        Some(v) => v,
        None => match editor {
            Some(e) => e,
            None => "vi"@,
        },
    }
}

/// The words of the editor command: split as a shell would, or the whole
/// setting as one word when it does not split.
pub open spec fn editor_words(chosen: Seq<char>) -> Seq<Seq<char>> {
    match shell_split(chosen) {
        Some(w) => w,
        None => seq![chosen],
    }
}

/// The command that opens `path` at `line` in the editor: its program and
/// arguments, then `+LINE` and the path. `None` when the setting holds no
/// word at all.
pub fn editor_argv(visual: Option<&str>, editor: Option<&str>, path: &str, line: u32) -> (r: Option<
    (String, Vec<String>),
>)
    ensures
        ({
            let words = editor_words(chosen_editor(match visual {
                Some(v) => Some(v@),
                None => None,
            }, match editor {
                Some(e) => Some(e@),
                None => None,
            }));
            match r {
                Some((prog, args)) => words.len() > 0 && prog@ == words[0] && strings_view(args@)
                    == words.drop_first() + seq!["+"@ + decimal(line as nat), path@],
                None => words.len() == 0,
            }
        }),
{
    let chosen: String = match visual {
        Some(v) => v.to_owned(),
        None => match editor {
            Some(e) => e.to_owned(),
            None => "vi".to_owned(),
        },
    };
    let mut words = match split(chosen.as_str()) {
        Ok(w) => w,
        Err(_) => {
            let mut w: Vec<String> = Vec::new();
            w.push(chosen.clone());
            assert(strings_view(w@) =~= seq![chosen@]);
            w
        },
    };
    if words.len() == 0 {
        return None;
    }
    let ghost all = strings_view(words@);
    let prog = words.remove(0);
    assert(strings_view(words@) =~= all.drop_first());
    let ghost rest = strings_view(words@);
    let mut flag = String::new();
    push_str(&mut flag, "+");
    let num = u64_to_text(line as u64);
    push_str(&mut flag, num.as_str());
    words.push(flag);
    words.push(path.to_owned());
    assert(strings_view(words@) =~= rest + seq!["+"@ + decimal(line as nat), path@]);
    Some((prog, words))
}


// ── Browse-mode layout ──────────────────────────────────────────────────────

/// One line of the browse-mode screen, before styling.
#[derive(Debug)]
pub enum BrowseLine {
    /// The run divider.
    Divider,
    /// The row of step `i`.
    Step(usize),
    /// A line of a step's expanded output: the line as captured, the line
    /// without its two-space indent, the index of the diagnostic it names
    /// in the step's list, and whether that is the current diagnostic of
    /// the cursor step.
    Output { step: usize, text: String, raw: String, diagnostic: Option<usize>, current: bool },
    Spacer,
    /// The run summary.
    Summary,
    /// The "hook running" note.
    HookRunning,
    /// A line of the hook's output.
    HookLine(String),
    /// The one-line key help.
    HelpBar,
    /// The `?` help modal.
    HelpModal,
    /// The transient message.
    Message,
}

pub enum BrowseLineView {
    Divider,
    Step(int),
    Output { step: int, text: Seq<char>, raw: Seq<char>, diagnostic: Option<int>, current: bool },
    Spacer,
    Summary,
    HookRunning,
    HookLine(Seq<char>),
    HelpBar,
    HelpModal,
    Message,
}

impl View for BrowseLine {
    type V = BrowseLineView;

    open spec fn view(&self) -> BrowseLineView {
        match self {
            BrowseLine::Divider => BrowseLineView::Divider,
            BrowseLine::Step(i) => BrowseLineView::Step(*i as int),
            BrowseLine::Output { step, text, raw, diagnostic, current } => BrowseLineView::Output {
                step: *step as int,
                text: text@,
                raw: raw@,
                diagnostic: match diagnostic {
                    Some(k) => Some(*k as int),
                    None => None,
                },
                current: *current,
            },
            BrowseLine::Spacer => BrowseLineView::Spacer,
            BrowseLine::Summary => BrowseLineView::Summary,
            BrowseLine::HookRunning => BrowseLineView::HookRunning,
            BrowseLine::HookLine(t) => BrowseLineView::HookLine(t@),
            BrowseLine::HelpBar => BrowseLineView::HelpBar,
            BrowseLine::HelpModal => BrowseLineView::HelpModal,
            BrowseLine::Message => BrowseLineView::Message,
        }
    }
}

pub open spec fn layout_view(v: Seq<BrowseLine>) -> Seq<BrowseLineView> {
    v.map_values(|l: BrowseLine| l@)
}

/// A line without its two-space indent.
pub open spec fn unindented(line: Seq<char>) -> Seq<char> {
    if line.len() >= 2 && line[0] == ' ' && line[1] == ' ' {
        line.skip(2)
    } else {
        line
    }
}

/// Line `line` of step `i`'s output as browse mode shows it.
pub open spec fn output_line(d: TtyDisplay, i: int, line: Seq<char>) -> BrowseLineView {
    let raw = unindented(line);
    let idx = match extract_spec(raw) {
        Some(dv) => first_location(diags_view(d.parsed_diagnostics@[i]@), dv),
        None => None,
    };
    BrowseLineView::Output {
        step: i,
        text: line,
        raw,
        diagnostic: idx,
        current: i == d.cursor && idx == Some(d.current_diagnostic@[i] as int),
    }
}

/// The rows of the first `k` steps, each followed by its output when it
/// is expanded and not empty.
pub open spec fn steps_layout(d: TtyDisplay, k: int) -> Seq<BrowseLineView>
    decreases k,
{
    if k <= 0 {
        seq![]
    } else {
        let i = k - 1;
        steps_layout(d, i) + seq![BrowseLineView::Step(i)] + if d.expanded@[i]
            && d.step_outputs@[i]@.len() > 0 {
            lines(d.step_outputs@[i]@).map_values(|l: Seq<char>| output_line(d, i, l))
        } else {
            seq![]
        }
    }
}

/// The footer of browse mode: a spacer; the summary and a spacer; the hook
/// note or its output and a spacer; the help (bar or modal); the message.
pub open spec fn footer_layout(d: TtyDisplay, has_summary: bool) -> Seq<BrowseLineView> {
    if !d.browse_active {
        seq![]
    } else {
        seq![BrowseLineView::Spacer] + (if has_summary {
            seq![BrowseLineView::Summary, BrowseLineView::Spacer]
        } else {
            seq![]
        }) + (if d.hook_running {
            seq![BrowseLineView::HookRunning, BrowseLineView::Spacer]
        } else if d.hook_output_text@.len() > 0 {
            lines(d.hook_output_text@).map_values(|l: Seq<char>| BrowseLineView::HookLine(l))
                + seq![BrowseLineView::Spacer]
        } else {
            seq![]
        }) + (if d.help_modal_active {
            seq![BrowseLineView::HelpModal]
        } else {
            seq![BrowseLineView::HelpBar]
        }) + (if d.transient_message is Some {
            seq![BrowseLineView::Message]
        } else {
            seq![]
        })
    }
}

/// The whole browse-mode screen, top to bottom, before clipping.
pub open spec fn browse_layout_spec(d: TtyDisplay, has_divider: bool, has_summary: bool) -> Seq<
    BrowseLineView,
> {
    (if has_divider {
        seq![BrowseLineView::Divider]
    } else {
        seq![]
    }) + steps_layout(d, d.step_names@.len() as int) + footer_layout(d, has_summary)
}

proof fn lemma_first_location_bounds(s: Seq<DiagnosticView>, x: DiagnosticView)
    ensures
        first_location(s, x) matches Some(i) ==> 0 <= i < s.len() && same_location(s[i], x)
            && forall|k: int| 0 <= k < i ==> !same_location(#[trigger] s[k], x),
        first_location(s, x) is None ==> forall|k: int|
            0 <= k < s.len() ==> !same_location(#[trigger] s[k], x),
    decreases s.len(),
{
    if s.len() > 0 {
        let init = s.drop_last();
        lemma_first_location_bounds(init, x);
        assert forall|k: int| 0 <= k < init.len() implies init[k] == s[k] by {}
    }
}

/// Index of the first diagnostic of `list` at the location of `d` (paths
/// compared component by component).
fn diagnostic_index(list: &Vec<Diagnostic>, d: &Diagnostic) -> (r: Option<usize>)
    ensures
        match r {
            Some(i) => first_location(diags_view(list@), d@) == Some(i as int),
            None => first_location(diags_view(list@), d@) is None,
        },
{
    let ghost lv = diags_view(list@);
    let mut i: usize = 0;
    while i < list.len()
        invariant
            i <= list@.len(),
            lv == diags_view(list@),
            forall|j: int| 0 <= j < i ==> !same_location(#[trigger] lv[j], d@),
        decreases list.len() - i,
    {
        let e = &list[i];
        if e.line == d.line && e.col == d.col && same_path(e.path.as_str(), d.path.as_str()) {
            assert(same_location(lv[i as int], d@));
            proof {
                lemma_first_location_bounds(lv, d@);
                match first_location(lv, d@) {
                    Some(f) => {
                        if f < i {
                            assert(!same_location(lv[f], d@));
                        }
                        if f > i {
                            assert(!same_location(lv[i as int], d@));
                        }
                    },
                    None => {
                        assert(!same_location(lv[i as int], d@));
                    },
                }
            }
            return Some(i);
        }
        i = i + 1;
    }
    proof {
        lemma_first_location_bounds(lv, d@);
        match first_location(lv, d@) {
            Some(f) => {
                assert(same_location(lv[f], d@));
            },
            None => {},
        }
    }
    None
}

/// `line` without its two-space indent (see `unindented`).
fn unindent(line: &Vec<char>) -> (r: Vec<char>)
    ensures
        r@ == unindented(line@),
{
    if line.len() >= 2 && line[0] == ' ' && line[1] == ' ' {
        let r = slice_chars(line, 2, line.len());
        assert(r@ =~= line@.skip(2));
        r
    } else {
        slice_chars(line, 0, line.len())
    }
}

impl TtyDisplay {
    fn push_line(out: &mut Vec<BrowseLine>, l: BrowseLine)
        ensures
            layout_view(final(out)@) == layout_view(old(out)@).push(l@),
    {
        let ghost lv = l@;
        out.push(l);
        assert(layout_view(out@) =~= layout_view(old(out)@).push(lv));
    }

    /// Appends the expanded output lines of step `i`.
    fn push_output_lines(&self, out: &mut Vec<BrowseLine>, i: usize)
        requires
            self.wf(),
            i < self.step_names@.len(),
        ensures
            layout_view(final(out)@) == layout_view(old(out)@) + lines(
                self.step_outputs@[i as int]@,
            ).map_values(|l: Seq<char>| output_line(*self, i as int, l)),
    {
        let ls = lines_of(&chars_of(self.step_outputs[i].as_str()));
        let ghost lv = view_lines(ls@);
        let ghost start = layout_view(out@);
        let ghost f = |l: Seq<char>| output_line(*self, i as int, l);
        let mut k: usize = 0;
        assert(lv.take(0).map_values(f) =~= Seq::<BrowseLineView>::empty());
        while k < ls.len()
            invariant
                k <= ls@.len(),
                lv == view_lines(ls@),
                lv == lines(self.step_outputs@[i as int]@),
                self.wf(),
                i < self.step_names@.len(),
                f == (|l: Seq<char>| output_line(*self, i as int, l)),
                layout_view(out@) == start + lv.take(k as int).map_values(f),
            decreases ls.len() - k,
        {
            let line = &ls[k];
            let raw = unindent(line);
            let raw_text = string_of(&raw);
            let idx = match extract_line(raw_text.as_str()) {
                Some(dg) => diagnostic_index(&self.parsed_diagnostics[i], &dg),
                None => None,
            };
            let current = i == self.cursor && match idx {
                Some(x) => x == self.current_diagnostic[i],
                None => false,
            };
            let ghost before = layout_view(out@);
            Self::push_line(
                out,
                BrowseLine::Output { step: i, text: string_of(line), raw: raw_text, diagnostic: idx, current },
            );
            proof {
                assert(lv[k as int] == line@);
                assert(lv.take(k + 1) =~= lv.take(k as int).push(line@));
                assert(lv.take(k + 1).map_values(f) =~= lv.take(k as int).map_values(f).push(
                    f(line@),
                ));
            }
            k = k + 1;
        }
        assert(lv.take(k as int) =~= lv);
    }

    /// Appends the lines of the hook's output.
    fn push_hook_lines(&self, out: &mut Vec<BrowseLine>)
        ensures
            layout_view(final(out)@) == layout_view(old(out)@) + lines(
                self.hook_output_text@,
            ).map_values(|l: Seq<char>| BrowseLineView::HookLine(l)),
    {
        let ls = lines_of(&chars_of(self.hook_output_text.as_str()));
        let ghost lv = view_lines(ls@);
        let ghost start = layout_view(out@);
        let ghost g = |l: Seq<char>| BrowseLineView::HookLine(l);
        let mut k: usize = 0;
        assert(lv.take(0).map_values(g) =~= Seq::<BrowseLineView>::empty());
        while k < ls.len()
            invariant
                k <= ls@.len(),
                lv == view_lines(ls@),
                g == (|l: Seq<char>| BrowseLineView::HookLine(l)),
                layout_view(out@) == start + lv.take(k as int).map_values(g),
            decreases ls.len() - k,
        {
            let text = string_of(&ls[k]);
            Self::push_line(out, BrowseLine::HookLine(text));
            proof {
                assert(lv[k as int] == ls@[k as int]@);
                assert(lv.take(k + 1) =~= lv.take(k as int).push(lv[k as int]));
                assert(lv.take(k + 1).map_values(g) =~= lv.take(k as int).map_values(g).push(
                    g(lv[k as int]),
                ));
            }
            k = k + 1;
        }
        assert(lv.take(k as int) =~= lv);
    }

    /// Appends the footer of browse mode (see `footer_layout`).
    fn push_footer(&self, out: &mut Vec<BrowseLine>, has_summary: bool)
        ensures
            layout_view(final(out)@) == layout_view(old(out)@) + footer_layout(*self, has_summary),
    {
        let ghost start = layout_view(out@);
        if self.browse_active {
            Self::push_line(out, BrowseLine::Spacer);
            if has_summary {
                Self::push_line(out, BrowseLine::Summary);
                Self::push_line(out, BrowseLine::Spacer);
            }
            let ghost a = layout_view(out@);
            if self.hook_running {
                Self::push_line(out, BrowseLine::HookRunning);
                Self::push_line(out, BrowseLine::Spacer);
            } else if !self.hook_output_text.as_str().is_empty() {
                self.push_hook_lines(out);
                Self::push_line(out, BrowseLine::Spacer);
            }
            let ghost b = layout_view(out@);
            if self.help_modal_active {
                Self::push_line(out, BrowseLine::HelpModal);
            } else {
                Self::push_line(out, BrowseLine::HelpBar);
            }
            let ghost c = layout_view(out@);
            if self.transient_message.is_some() {
                Self::push_line(out, BrowseLine::Message);
            }
            assert(layout_view(out@) =~= start + footer_layout(*self, has_summary));
        } else {
            assert(layout_view(out@) =~= start + footer_layout(*self, has_summary));
        }
    }

    /// The lines of the browse-mode screen, top to bottom, before styling
    /// and clipping (see `browse_layout_spec`). `has_divider` and
    /// `has_summary` say whether a divider and a summary were drawn.
    pub fn browse_layout(&self, has_divider: bool, has_summary: bool) -> (out: Vec<BrowseLine>)
        requires
            self.wf(),
        ensures
            layout_view(out@) == browse_layout_spec(*self, has_divider, has_summary),
    {
        let mut out: Vec<BrowseLine> = Vec::new();
        if has_divider {
            Self::push_line(&mut out, BrowseLine::Divider);
        }
        let ghost head = layout_view(out@);
        assert(head =~= (if has_divider {
            seq![BrowseLineView::Divider]
        } else {
            Seq::<BrowseLineView>::empty()
        }));
        let n = self.step_names.len();
        let mut i: usize = 0;
        assert(head + steps_layout(*self, 0) =~= head);
        while i < n
            invariant
                i <= n,
                n == self.step_names@.len(),
                self.wf(),
                layout_view(out@) == head + steps_layout(*self, i as int),
            decreases n - i,
        {
            Self::push_line(&mut out, BrowseLine::Step(i));
            if self.expanded[i] && !self.step_outputs[i].as_str().is_empty() {
                self.push_output_lines(&mut out, i);
            }
            assert(layout_view(out@) =~= head + steps_layout(*self, i + 1));
            i = i + 1;
        }
        self.push_footer(&mut out, has_summary);
        assert(layout_view(out@) =~= browse_layout_spec(*self, has_divider, has_summary));
        out
    }
}

} // verus!
