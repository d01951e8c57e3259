//! POSIX shell words, through the `shell_words` crate.
use vstd::prelude::*;

use crate::config::schema::strings_view;

verus! {

/// The words `shell_words::split` produces for `s`, or `None` when it
/// reports an error (an unmatched quote).
pub uninterp spec fn shell_split(s: Seq<char>) -> Option<Seq<Seq<char>>>;

/// Characters after which `shell_words::quote` stops leaving a word bare.
pub open spec fn is_shell_special(c: char) -> bool {
    c == '|' || c == '&' || c == ';' || c == '<' || c == '>' || c == '(' || c == ')' || c == '$'
        || c == '`' || c == '\\' || c == '"' || c == ' ' || c == '\t' || c == '*' || c == '?'
        || c == '[' || c == '#' || c == '~' || c == '=' || c == '%' || c == '\n' || c == '\''
}

pub open spec fn has_char(s: Seq<char>, c: char) -> bool {
    exists|i: int| 0 <= i < s.len() && s[i] == c
}

/// `s` with every `'` written as `'\''`.
pub open spec fn escape_single_quotes(s: Seq<char>) -> Seq<char>
    decreases s.len(),
{
    if s.len() == 0 {
        seq![]
    } else {
        let head = if s[0] == '\'' {
            seq!['\'', '\\', '\'', '\'']
        } else {
            seq![s[0]]
        };
        head + escape_single_quotes(s.drop_first())
    }
}

/// What `shell_words::quote` returns: the word unchanged when it holds no
/// special character, `'word'` when it is empty or holds a newline but no
/// single quote, and otherwise `'…'` with each `'` escaped as `'\''`.
pub open spec fn quote_spec(s: Seq<char>) -> Seq<char> {
    if s.len() == 0 {
        seq!['\'', '\'']
    } else if !(exists|i: int| 0 <= i < s.len() && is_shell_special(#[trigger] s[i])) {
        s
    } else if has_char(s, '\n') && !has_char(s, '\'') {
        seq!['\''] + s + seq!['\'']
    } else {
        seq!['\''] + escape_single_quotes(s) + seq!['\'']
    }
}

/// Splits a command line into words (`shell_words::split`). The contract
/// claims that the words, or the failure, are the crate's answer for this
/// text (`shell_split`), and that a failure's text is the one the crate's
/// `ParseError` displays.
#[verifier::external_body]
pub(crate) fn split(s: &str) -> (r: Result<Vec<String>, String>)
    ensures
        match r {
            Ok(v) => shell_split(s@) == Some(strings_view(v@)),
            Err(e) => shell_split(s@) is None && e@ == "missing closing quote"@,
        },
{
    shell_words::split(s).map_err(|e| e.to_string())
}

/// Quotes a word for the shell (`shell_words::quote`), whose behaviour the
/// crate's source fixes as `quote_spec`.
#[verifier::external_body]
pub(crate) fn quote(s: &str) -> (r: String)
    ensures
        r@ == quote_spec(s@),
{
    shell_words::quote(s).into_owned()
}

} // verus!
