//! Extracts `(path, line, col?)` triples from step output so browse mode can
//! offer "jump to file:line" navigation.
//!
//! Recognised shapes:
//! - `rustc` / `clippy`: `--> src/foo.rs:42:5` (and `::: …` context spans)
//! - panics: `panicked at src/foo.rs:42:5:` or `panicked at 'msg', src/foo.rs:42:5`
//! - generic: `src/foo.ts:42:5: error: …` or `src/foo.py:42: …` at the start
//!   of a (possibly indented) line
//!
//! A path must hold at least one of `/`, `.`, `\` so that bare identifiers
//! such as `Caused by: foo:42` are not picked up.
use vstd::prelude::*;

use crate::path::{components, same_path};
use crate::text::{
    chars_of, find, find_chars, is_ascii_ws, is_digit, digit_value, lines, lines_of, slice_chars,
    string_of, trim_start, view_lines, lemma_find_bounds, lemma_trim_start_at, is_ws, is_ws_char,
};

verus! {

/// One `(file, line, col?)` triple suitable for opening in an editor.
#[derive(Debug, Clone, PartialEq, Eq, Hash)]
pub struct Diagnostic {
    pub path: String,
    pub line: u32,
    pub col: Option<u32>,
}

pub struct DiagnosticView {
    pub path: Seq<char>,
    pub line: u32,
    pub col: Option<u32>,
}

impl View for Diagnostic {
    type V = DiagnosticView;

    open spec fn view(&self) -> DiagnosticView {
        DiagnosticView { path: self.path@, line: self.line, col: self.col }
    }
}

pub open spec fn diags_view(v: Seq<Diagnostic>) -> Seq<DiagnosticView> {
    v.map_values(|d: Diagnostic| d@)
}

// ── Specification ───────────────────────────────────────────────────────────

/// Value of a run of decimal digits.
pub open spec fn digits_value(d: Seq<char>) -> nat
    decreases d.len(),
{
    if d.len() == 0 {
        0
    } else {
        digits_value(d.drop_last()) * 10 + digit_value(d.last())
    }
}

/// Length of the run of digits starting at `from`.
pub open spec fn digit_run(s: Seq<char>, from: int) -> nat
    decreases s.len() - from,
{
    if 0 <= from < s.len() && is_digit(s[from]) {
        1 + digit_run(s, from + 1)
    } else {
        0
    }
}

/// The run of digits at `from` read as a `u32`, or `None` when it does not
/// fit (`str::parse::<u32>` on a non-empty digit run).
pub open spec fn read_u32(s: Seq<char>, from: int) -> Option<u32> {
    let v = digits_value(s.subrange(from, from + digit_run(s, from)));
    if v <= u32::MAX {
        Some(v as u32)
    } else {
        None
    }
}

/// The position of the colon that ends the path: the first `:` followed by
/// a digit, scanning from `i`; the scan gives up at ASCII whitespace or at
/// the end.
pub open spec fn path_end_from(s: Seq<char>, i: int) -> Option<int>
    decreases s.len() - i,
{
    if i < 0 || i >= s.len() || is_ascii_ws(s[i]) {
        None
    } else if s[i] == ':' && i + 1 < s.len() && is_digit(s[i + 1]) {
        Some(i)
    } else {
        path_end_from(s, i + 1)
    }
}

/// A path must look like one: it holds `/`, `.` or `\`.
pub open spec fn looks_like_path(p: Seq<char>) -> bool {
    exists|i: int| 0 <= i < p.len() && (p[i] == '/' || p[i] == '.' || p[i] == '\\')
}

/// `<path>:<line>(:<col>)?` at the start of `s`.
pub open spec fn parse_location(s: Seq<char>) -> Option<DiagnosticView> {
    match path_end_from(s, 0) {
        None => None,
        Some(pe) => {
            if pe == 0 || !looks_like_path(s.take(pe)) {
                None
            } else {
                let line_start = pe + 1;
                let line_end = line_start + digit_run(s, line_start);
                match read_u32(s, line_start) {
                    None => None,
                    Some(line) => {
                        let col = if line_end + 1 < s.len() && s[line_end] == ':' && is_digit(
                            s[line_end + 1],
                        ) {
                            read_u32(s, line_end + 1)
                        } else {
                            None
                        };
                        Some(DiagnosticView { path: s.take(pe), line, col })
                    },
                }
            }
        },
    }
}

/// Whether `k` is where a path ends: `:` followed by a digit.
pub open spec fn colon_digit_at(s: Seq<char>, k: int) -> bool {
    0 <= k && k + 1 < s.len() && s[k] == ':' && is_digit(s[k + 1])
}

/// The location after `marker` in `line`, if the marker occurs and a
/// location follows it.
pub open spec fn after_marker(line: Seq<char>, marker: Seq<char>) -> Option<DiagnosticView> {
    match find(line, marker) {
        Some(i) => parse_location(line.skip(i + marker.len())),
        None => None,
    }
}

/// The location in a panic message: after `, ` (legacy form) when that
/// gives one, else right after `panicked at `.
pub open spec fn panic_location(line: Seq<char>) -> Option<DiagnosticView> {
    match find(line, "panicked at "@) {
        None => None,
        Some(i) => {
            let rest = line.skip(i + 12);
            let legacy = match find(rest, ", "@) {
                Some(c) => parse_location(rest.skip(c + 2)),
                None => None,
            };
            if legacy is Some {
                legacy
            } else {
                parse_location(rest)
            }
        },
    }
}

/// The diagnostic of one line: the first of the `-->` span, the `:::` span,
/// the panic location, and the location at the start of the line.
pub open spec fn extract_spec(line: Seq<char>) -> Option<DiagnosticView> {
    if after_marker(line, "--> "@) is Some {
        after_marker(line, "--> "@)
    } else if after_marker(line, "::: "@) is Some {
        after_marker(line, "::: "@)
    } else if panic_location(line) is Some {
        panic_location(line)
    } else {
        parse_location(trim_start(line))
    }
}

/// Whether two diagnostics name the same location: the same line and
/// column, and paths that are equal component by component (as
/// `std::path::PathBuf` equality compares them).
pub open spec fn same_location(a: DiagnosticView, b: DiagnosticView) -> bool {
    components(a.path) == components(b.path) && a.line == b.line && a.col == b.col
}

/// Whether `list` already names the location of `d`.
pub open spec fn has_location(list: Seq<DiagnosticView>, d: DiagnosticView) -> bool {
    exists|i: int| 0 <= i < list.len() && same_location(#[trigger] list[i], d)
}

/// The index of the first diagnostic of `list` at the location of `d`.
pub open spec fn first_location(list: Seq<DiagnosticView>, d: DiagnosticView) -> Option<int>
    decreases list.len(),
{
    if list.len() == 0 {
        None
    } else {
        match first_location(list.drop_last(), d) {
            Some(i) => Some(i),
            None => if same_location(list.last(), d) {
                Some(list.len() - 1)
            } else {
                None
            },
        }
    }
}

/// The diagnostics of the lines, in order, each location kept once (the
/// first time it appears).
pub open spec fn collect_diagnostics(ls: Seq<Seq<char>>) -> Seq<DiagnosticView>
    decreases ls.len(),
{
    if ls.len() == 0 {
        seq![]
    } else {
        let before = collect_diagnostics(ls.drop_last());
        match extract_spec(ls.last()) {
            Some(d) => if has_location(before, d) {
                before
            } else {
                before.push(d)
            },
            None => before,
        }
    }
}

// ── Lemmas ──────────────────────────────────────────────────────────────────

proof fn lemma_digits_grow(d: Seq<char>, k: int)
    requires
        0 <= k <= d.len(),
    ensures
        digits_value(d.take(k)) <= digits_value(d),
    decreases d.len() - k,
{
    if k < d.len() {
        lemma_digits_grow(d, k + 1);
        assert(d.take(k + 1).drop_last() =~= d.take(k));
    } else {
        assert(d.take(k) =~= d);
    }
}

proof fn lemma_digit_run(s: Seq<char>, from: int, k: int)
    requires
        0 <= from,
        0 <= k,
        from + k <= s.len(),
        forall|j: int| from <= j < from + k ==> is_digit(#[trigger] s[j]),
        from + k == s.len() || !is_digit(s[from + k]),
    ensures
        digit_run(s, from) == k,
    decreases k,
{
    if k > 0 {
        lemma_digit_run(s, from + 1, k - 1);
    }
}

proof fn lemma_path_end(s: Seq<char>, from: int, at: int)
    requires
        0 <= from <= at <= s.len(),
        forall|j: int|
            from <= j < at ==> !is_ascii_ws(#[trigger] s[j]) && !(s[j] == ':' && j + 1 < s.len()
                && is_digit(s[j + 1])),
    ensures
        path_end_from(s, from) == path_end_from(s, at),
    decreases at - from,
{
    if from < at {
        lemma_path_end(s, from + 1, at);
    }
}

// ── Executable parsing ──────────────────────────────────────────────────────

pub fn is_digit_char(c: char) -> (b: bool)
    ensures
        b == is_digit(c),
{
    '0' <= c && c <= '9'
}

/// Reads the digit run at `from`: its end, and its value when it fits a
/// `u32`.
fn read_digits(s: &Vec<char>, from: usize) -> (r: (usize, Option<u32>))
    requires
        from <= s@.len(),
    ensures
        r.0 <= s@.len(),
        r.0 == from + digit_run(s@, from as int),
        r.1 == read_u32(s@, from as int),
{
    let mut i = from;
    let mut value: u64 = 0;
    let mut fits = true;
    while i < s.len() && is_digit_char(s[i])
        invariant
            from <= i <= s@.len(),
            forall|j: int| from <= j < i ==> is_digit(#[trigger] s@[j]),
            fits ==> value == digits_value(s@.subrange(from as int, i as int)),
            fits ==> value <= u32::MAX,
            !fits ==> digits_value(s@.subrange(from as int, i as int)) > u32::MAX,
        decreases s.len() - i,
    {
        let d = s[i];
        proof {
            assert(s@.subrange(from as int, i + 1).drop_last() =~= s@.subrange(from as int, i as int));
        }
        if fits {
            let dv: u64 = ((d as u32) - ('0' as u32)) as u64;
            value = value * 10 + dv;
            if value > 4294967295u64 {
                fits = false;
            }
        } else {
            proof {
                let t = s@.subrange(from as int, i + 1);
                assert(digits_value(t) == digits_value(t.drop_last()) * 10 + digit_value(t.last()));
            }
        }
        i = i + 1;
    }
    proof {
        lemma_digit_run(s@, from as int, i - from);
    }
    (i, if fits { Some(value as u32) } else { None })
}

/// Parses `<path>:<line>(:<col>)?` from the start of `s`. The path is
/// everything up to the first `:` followed by a digit, with no ASCII
/// whitespace before it, and must hold `/`, `.` or `\` so that bare
/// identifiers are rejected (see `parse_location`).
pub fn parse_path_line_col(s: &str) -> (r: Option<Diagnostic>)
    ensures
        match r {
            Some(d) => parse_location(s@) == Some(d@),
            None => parse_location(s@) is None,
        },
{
    let v = chars_of(s);
    parse_location_at(&v)
}

/// Parses `<path>:<line>(:<col>)?` at the start of `s`.
fn parse_location_at(s: &Vec<char>) -> (r: Option<Diagnostic>)
    ensures
        match r {
            Some(d) => parse_location(s@) == Some(d@),
            None => parse_location(s@) is None,
        },
{
    let mut i: usize = 0;
    loop
        invariant
            i <= s@.len(),
            path_end_from(s@, 0) == path_end_from(s@, i as int),
        ensures
            i + 1 < s@.len(),
            is_digit(s@[i + 1]),
            path_end_from(s@, 0) == Some(i as int),
        decreases s.len() - i,
    {
        if i >= s.len() {
            return None;
        }
        let c = s[i];
        if c == ' ' || c == '\t' || c == '\n' || c == '\x0C' || c == '\r' {
            return None;
        }
        if c == ':' && i + 1 < s.len() && is_digit_char(s[i + 1]) {
            break ;
        }
        proof {
            lemma_path_end(s@, i as int, i + 1);
        }
        i = i + 1;
    }
    let pe = i;
    if pe == 0 {
        return None;
    }
    let mut k: usize = 0;
    let mut pathish = false;
    while k < pe
        invariant
            pe <= s@.len(),
            k <= pe,
            pathish == (exists|j: int| 0 <= j < k && (s@[j] == '/' || s@[j] == '.' || s@[j] == '\\')),
        decreases pe - k,
    {
        if s[k] == '/' || s[k] == '.' || s[k] == '\\' {
            pathish = true;
        }
        k = k + 1;
    }
    proof {
        assert(pathish == looks_like_path(s@.take(pe as int))) by {
            if pathish {
                let j = choose|j: int| 0 <= j < pe && (s@[j] == '/' || s@[j] == '.' || s@[j] == '\\');
                assert(s@.take(pe as int)[j] == s@[j]);
            }
            if looks_like_path(s@.take(pe as int)) {
                let j = choose|j: int| 0 <= j < pe && (s@.take(pe as int)[j] == '/' || s@.take(pe as int)[j] == '.' || s@.take(pe as int)[j] == '\\');
                assert(s@.take(pe as int)[j] == s@[j]);
            }
        }
    }
    if !pathish {
        return None;
    }
    let slen = s.len();
    assert(pe + 1 < slen);
    let (line_end, line) = read_digits(s, pe + 1);
    match line {
        None => None,
        Some(line) => {
            let col = if line_end < slen && line_end + 1 < slen && s[line_end] == ':' && is_digit_char(s[line_end + 1]) {
                let (_, c) = read_digits(s, line_end + 1);
                c
            } else {
                None
            };
            let path = string_of_prefix(s, pe);
            Some(Diagnostic { path, line, col })
        },
    }
}

fn string_of_prefix(s: &Vec<char>, n: usize) -> (p: String)
    requires
        n <= s@.len(),
    ensures
        p@ == s@.take(n as int),
{
    let p = crate::text::string_of_range(s, 0, n);
    assert(s@.subrange(0, n as int) =~= s@.take(n as int));
    p
}

/// The location after the first occurrence of `marker` in `line`.
fn location_after(line: &Vec<char>, marker: &str) -> (r: Option<Diagnostic>)
    ensures
        match r {
            Some(d) => after_marker(line@, marker@) == Some(d@),
            None => after_marker(line@, marker@) is None,
        },
{
    let m = chars_of(marker);
    proof {
        lemma_find_bounds(line@, m@, 0);
    }
    match find_chars(line, &m, 0) {
        None => None,
        Some(idx) => {
            let ll = line.len();
            let ml = m.len();
            assert(idx + ml <= ll);
            let rest = slice_chars(line, idx + ml, ll);
            assert(rest@ =~= line@.skip(idx + m@.len()));
            parse_location_at(&rest)
        },
    }
}

/// The location in a panic message (see `panic_location`).
fn location_in_panic(line: &Vec<char>) -> (r: Option<Diagnostic>)
    ensures
        match r {
            Some(d) => panic_location(line@) == Some(d@),
            None => panic_location(line@) is None,
        },
{
    let m = chars_of("panicked at ");
    proof {
        reveal_strlit("panicked at ");
        lemma_find_bounds(line@, m@, 0);
    }
    match find_chars(line, &m, 0) {
        None => None,
        Some(idx) => {
            let ll = line.len();
            let ml = m.len();
            assert(idx + ml <= ll);
            let rest = slice_chars(line, idx + ml, ll);
            assert(rest@ =~= line@.skip(idx + 12));
            let sep = chars_of(", ");
            proof {
                reveal_strlit(", ");
                lemma_find_bounds(rest@, sep@, 0);
            }
            let legacy = match find_chars(&rest, &sep, 0) {
                Some(c) => {
                    let rl = rest.len();
                    assert(c + 2 <= rl);
                    let after = slice_chars(&rest, c + 2, rl);
                    assert(after@ =~= rest@.skip(c + 2));
                    parse_location_at(&after)
                },
                None => None,
            };
            if legacy.is_some() {
                legacy
            } else {
                parse_location_at(&rest)
            }
        },
    }
}

/// The diagnostic a single line of output names, if any: the first hit of
/// the `-->` span, the `:::` span, the panic location, and a location at
/// the start of the line.
pub fn extract_line(line: &str) -> (r: Option<Diagnostic>)
    ensures
        match r {
            Some(d) => extract_spec(line@) == Some(d@),
            None => extract_spec(line@) is None,
        },
{
    let v = chars_of(line);
    extract_from(&v)
}

fn extract_from(v: &Vec<char>) -> (r: Option<Diagnostic>)
    ensures
        match r {
            Some(d) => extract_spec(v@) == Some(d@),
            None => extract_spec(v@) is None,
        },
{
    let a = location_after(v, "--> ");
    if a.is_some() {
        return a;
    }
    let b = location_after(v, "::: ");
    if b.is_some() {
        return b;
    }
    let c = location_in_panic(v);
    if c.is_some() {
        return c;
    }
    let mut k: usize = 0;
    while k < v.len() && is_ws_char(v[k])
        invariant
            k <= v@.len(),
            forall|j: int| 0 <= j < k ==> is_ws(#[trigger] v@[j]),
        decreases v.len() - k,
    {
        k = k + 1;
    }
    proof {
        lemma_trim_start_at(v@, k as int);
    }
    let rest = slice_chars(v, k, v.len());
    assert(rest@ =~= v@.skip(k as int));
    parse_location_at(&rest)
}

/// Whether `list` already names the location of `d`.
fn holds_diagnostic(list: &Vec<Diagnostic>, d: &Diagnostic) -> (b: bool)
    ensures
        b == has_location(diags_view(list@), d@),
{
    let ghost lv = diags_view(list@);
    let mut i: usize = 0;
    while i < list.len()
        invariant
            i <= list@.len(),
            lv == diags_view(list@),
            forall|j: int| 0 <= j < i ==> !same_location(#[trigger] lv[j], d@),
        decreases list.len() - i,
    {
        let e = &list[i];
        if e.line == d.line && e.col == d.col && same_path(e.path.as_str(), d.path.as_str()) {
            assert(same_location(lv[i as int], d@));
            return true;
        }
        i = i + 1;
    }
    false
}

/// Every diagnostic in `output`, line by line, in order; a location that
/// appears again later is kept only once.
pub fn parse(output: &str) -> (out: Vec<Diagnostic>)
    ensures
        diags_view(out@) == collect_diagnostics(lines(output@)),
{
    let v = chars_of(output);
    let ls = lines_of(&v);
    let ghost lv = view_lines(ls@);
    let mut out: Vec<Diagnostic> = Vec::new();
    let mut i: usize = 0;
    assert(diags_view(out@) =~= collect_diagnostics(lv.take(0)));
    while i < ls.len()
        invariant
            i <= ls@.len(),
            lv == view_lines(ls@),
            lv == lines(output@),
            diags_view(out@) == collect_diagnostics(lv.take(i as int)),
        decreases ls.len() - i,
    {
        proof {
            assert(lv.take(i + 1).drop_last() =~= lv.take(i as int));
            assert(lv.take(i + 1).last() == ls@[i as int]@);
        }
        match extract_from(&ls[i]) {
            Some(d) => {
                if !holds_diagnostic(&out, &d) {
                    let ghost before = diags_view(out@);
                    out.push(d);
                    assert(diags_view(out@) =~= before.push(d@));
                }
            },
            None => {},
        }
        i = i + 1;
    }
    assert(lv.take(lv.len() as int) =~= lv);
    out
}


// ── Laws ────────────────────────────────────────────────────────────────────

/// Each location is listed once (no two entries name the same location,
/// paths compared component by component), and every line that names a
/// location has that location listed.
pub proof fn law_diagnostics_distinct_and_complete(ls: Seq<Seq<char>>)
    ensures
        forall|i: int, j: int|
            0 <= i < j < collect_diagnostics(ls).len() ==> !same_location(
                #[trigger] collect_diagnostics(ls)[i],
                #[trigger] collect_diagnostics(ls)[j],
            ),
        forall|k: int|
            0 <= k < ls.len() && (#[trigger] extract_spec(ls[k])) is Some ==> has_location(
                collect_diagnostics(ls),
                extract_spec(ls[k])->0,
            ),
    decreases ls.len(),
{
    if ls.len() > 0 {
        let init = ls.drop_last();
        law_diagnostics_distinct_and_complete(init);
        let before = collect_diagnostics(init);
        let out = collect_diagnostics(ls);
        assert forall|i: int, j: int| 0 <= i < j < out.len() implies !same_location(
            #[trigger] out[i],
            #[trigger] out[j],
        ) by {
            if j == before.len() {
                assert(out[i] == before[i]);
                assert(!has_location(before, out[j]));
                if same_location(out[i], out[j]) {
                    assert(same_location(before[i], out[j]));
                }
            } else {
                assert(out[i] == before[i] && out[j] == before[j]);
            }
        }
        assert forall|k: int|
            0 <= k < ls.len() && (#[trigger] extract_spec(ls[k])) is Some implies has_location(
            out,
            extract_spec(ls[k])->0,
        ) by {
            let d = extract_spec(ls[k])->0;
            if k < init.len() {
                assert(init[k] == ls[k]);
                assert(has_location(before, d));
                let w = choose|w: int| 0 <= w < before.len() && same_location(#[trigger] before[w], d);
                assert(out[w] == before[w]);
                assert(same_location(out[w], d));
            } else {
                assert(ls[k] == ls.last());
                if !has_location(before, d) {
                    assert(out[before.len() as int] == d);
                    assert(same_location(out[before.len() as int], d));
                } else {
                    let w = choose|w: int| 0 <= w < before.len() && same_location(#[trigger] before[w], d);
                    assert(out[w] == before[w]);
                }
            }
        }
    }
}

proof fn lemma_path_end_from(s: Seq<char>, i: int, k: int)
    requires
        0 <= i,
    ensures
        path_end_from(s, i) == Some(k) <==> (i <= k && colon_digit_at(s, k) && forall|j: int|
            i <= j < k ==> !is_ascii_ws(#[trigger] s[j]) && !colon_digit_at(s, j)),
    decreases s.len() - i,
{
    if i < s.len() && !is_ascii_ws(s[i]) && !(s[i] == ':' && i + 1 < s.len() && is_digit(s[i + 1])) {
        lemma_path_end_from(s, i + 1, k);
        if i <= k && colon_digit_at(s, k) && forall|j: int|
            i <= j < k ==> !is_ascii_ws(#[trigger] s[j]) && !colon_digit_at(s, j) {
            assert(!colon_digit_at(s, i));
            assert(k != i);
        }
    } else if i < s.len() && !is_ascii_ws(s[i]) {
        assert(colon_digit_at(s, i));
        if k > i {
            assert(!(forall|j: int| i <= j < k ==> !is_ascii_ws(#[trigger] s[j]) && !colon_digit_at(s, j)));
        }
    } else if i < s.len() {
        if i <= k && colon_digit_at(s, k) {
            if k == i {
                assert(s[i] == ':');
            } else {
                assert(!(forall|j: int| i <= j < k ==> !is_ascii_ws(#[trigger] s[j]) && !colon_digit_at(s, j)));
            }
        }
    }
}

/// How `path:line:col` is read: `parse_location(s)` gives a location
/// exactly when there is a position `k > 0` holding `:` followed by a
/// digit, with no such position and no ASCII whitespace before it, the path
/// `s[..k]` holds `/`, `.` or `\`, and the line's digits fit a `u32`. The
/// path is then `s[..k]` and the line those digits.
pub proof fn law_location_rule(s: Seq<char>, k: int)
    requires
        colon_digit_at(s, k),
        forall|j: int| 0 <= j < k ==> !is_ascii_ws(#[trigger] s[j]) && !colon_digit_at(s, j),
    ensures
        path_end_from(s, 0) == Some(k),
        parse_location(s) is Some <==> (k > 0 && looks_like_path(s.take(k)) && read_u32(s, k + 1) is Some),
        parse_location(s) matches Some(d) ==> d.path == s.take(k) && Some(d.line) == read_u32(s, k + 1),
{
    lemma_path_end_from(s, 0, k);
}

/// When no position holds `:` followed by a digit before the first ASCII
/// whitespace, nothing is read.
pub proof fn law_location_needs_colon_digit(s: Seq<char>)
    requires
        forall|k: int| colon_digit_at(s, k) ==> exists|j: int| 0 <= j < k && #[trigger] is_ascii_ws(s[j]),
    ensures
        parse_location(s) is None,
{
    if path_end_from(s, 0) is Some {
        let k = path_end_from(s, 0)->0;
        lemma_path_end_from(s, 0, k);
        let j = choose|j: int| 0 <= j < k && #[trigger] is_ascii_ws(s[j]);
        assert(!is_ascii_ws(s[j]));
    }
}

} // verus!
