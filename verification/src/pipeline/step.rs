//! What a step run produced, and the pure parts of running one.
use vstd::prelude::*;

use crate::config::schema::{Step, strings_view};
use crate::shell::{shell_split, split};
use crate::text::push_str;

verus! {

/// Maximum bytes captured per stream of a step. Output beyond this is cut.
pub const MAX_CAPTURE_BYTES: usize = 102400;

/// The outcome of one step.
#[derive(Debug)]
pub struct StepResult {
    pub name: String,
    pub success: bool,
    pub exit_code: Option<i32>,
    pub stdout: String,
    pub stderr: String,
    pub duration: std::time::Duration,
    /// True when `stdout` was clipped at `MAX_CAPTURE_BYTES`.
    pub stdout_truncated: bool,
    /// True when `stderr` was clipped at `MAX_CAPTURE_BYTES`.
    pub stderr_truncated: bool,
}

/// The plain contents of a `StepResult` (the duration is left out).
pub struct StepResultView {
    pub name: Seq<char>,
    pub success: bool,
    pub exit_code: Option<i32>,
    pub stdout: Seq<char>,
    pub stderr: Seq<char>,
    pub stdout_truncated: bool,
    pub stderr_truncated: bool,
}

impl View for StepResult {
    type V = StepResultView;

    open spec fn view(&self) -> StepResultView {
        StepResultView {
            name: self.name@,
            success: self.success,
            exit_code: self.exit_code,
            stdout: self.stdout@,
            stderr: self.stderr@,
            stdout_truncated: self.stdout_truncated,
            stderr_truncated: self.stderr_truncated,
        }
    }
}

pub open spec fn results_view(v: Seq<StepResult>) -> Seq<StepResultView> {
    v.map_values(|r: StepResult| r@)
}

/// The text `String::from_utf8_lossy` makes of `bytes`.
pub uninterp spec fn utf8_lossy(bytes: Seq<u8>) -> Seq<char>;

/// Decodes bytes as UTF-8, replacing invalid sequences
/// (`String::from_utf8_lossy`). The contract claims only that the text is
/// the one std gives for these bytes (`utf8_lossy`).
#[verifier::external_body]
pub(crate) fn decode_lossy(bytes: &[u8]) -> (s: String)
    ensures
        s@ == utf8_lossy(bytes@),
{
    String::from_utf8_lossy(bytes).into_owned()
}

/// The marker appended to clipped output.
pub open spec fn truncation_marker() -> Seq<char> {
    "\n... [output truncated at 100 KiB] ...\n"@
}

/// Decodes captured output, clipping it at `MAX_CAPTURE_BYTES` bytes and
/// marking the clip. Returns the text and whether it was clipped.
pub fn truncate_capture(bytes: &[u8]) -> (r: (String, bool))
    ensures
        r.1 == (bytes@.len() > MAX_CAPTURE_BYTES),
        !r.1 ==> r.0@ == utf8_lossy(bytes@),
        r.1 ==> r.0@ == utf8_lossy(bytes@.take(MAX_CAPTURE_BYTES as int)) + truncation_marker(),
{
    if bytes.len() <= MAX_CAPTURE_BYTES {
        (decode_lossy(bytes), false)
    } else {
        let head = &bytes[0..MAX_CAPTURE_BYTES];
        assert(head@ =~= bytes@.take(MAX_CAPTURE_BYTES as int));
        let mut s = decode_lossy(head);
        push_str(&mut s, "\n... [output truncated at 100 KiB] ...\n");
        (s, true)
    }
}

/// The program and arguments a step's `cmd` splits into, or the error that
/// stops the step from being run: an unparseable `cmd`, or one with no
/// words.
pub fn command_parts(step: &Step) -> (r: Result<(String, Vec<String>), String>)
    ensures
        match r {
            Ok((prog, args)) => shell_split(step.cmd@) == Some(seq![prog@] + strings_view(args@)),
            Err(e) => match shell_split(step.cmd@) {
                None => e@ == "parsing cmd `"@ + step.cmd@ + "` for step `"@ + step.name@
                    + "`: missing closing quote"@,
                Some(words) => words.len() == 0 && e@ == "empty cmd for step `"@ + step.name@
                    + "`"@,
            },
        },
{
    match split(step.cmd.as_str()) {
        Err(e) => {
            let mut msg = String::new();
            push_str(&mut msg, "parsing cmd `");
            push_str(&mut msg, step.cmd.as_str());
            push_str(&mut msg, "` for step `");
            push_str(&mut msg, step.name.as_str());
            push_str(&mut msg, "`: ");
            push_str(&mut msg, e.as_str());
            proof {
                reveal_strlit("`: ");
                reveal_strlit("missing closing quote");
                reveal_strlit("`: missing closing quote");
                assert("`: "@ + "missing closing quote"@ =~= "`: missing closing quote"@);
            }
            Err(msg)
        },
        Ok(words) => split_program(words, &step.name),
    }
}

/// Splits words into the program and its arguments.
pub fn split_program(words: Vec<String>, name: &String) -> (r: Result<(String, Vec<String>), String>)
    ensures
        match r {
            Ok((prog, args)) => strings_view(words@) == seq![prog@] + strings_view(args@),
            Err(e) => words@.len() == 0 && e@ == "empty cmd for step `"@ + name@ + "`"@,
        },
{
    let mut words = words;
    if words.len() == 0 {
        let mut msg = String::new();
        push_str(&mut msg, "empty cmd for step `");
        push_str(&mut msg, name.as_str());
        push_str(&mut msg, "`");
        return Err(msg);
    }
    let ghost all = words@;
    let prog = words.remove(0);
    assert(strings_view(all) =~= seq![prog@] + strings_view(words@));
    Ok((prog, words))
}

} // verus!
