//! Colour policy and ANSI-aware measuring.
use vstd::prelude::*;

use crate::text::{chars_of, push_char};

verus! {

/// Resolved once at startup: whether output is coloured. Every styling
/// decision consults it, so `NO_COLOR` is respected everywhere.
#[derive(Debug, Clone, Copy)]
pub struct Theme {
    color: bool,
}

impl Theme {
    pub closed spec fn spec_color(&self) -> bool {
        self.color
    }

    pub fn new(color: bool) -> (t: Self)
        ensures
            t.spec_color() == color,
    {
        Theme { color }
    }

    pub fn color_enabled(&self) -> (b: bool)
        ensures
            b == self.spec_color(),
    {
        self.color
    }
}

/// Number of characters of `s` outside ANSI SGR escapes (`ESC … m`), given
/// whether the scan starts inside an escape.
pub open spec fn visible_count(s: Seq<char>, in_escape: bool) -> nat
    decreases s.len(),
{
    if s.len() == 0 {
        0
    } else if s[0] == '\x1b' {
        visible_count(s.drop_first(), true)
    } else if in_escape {
        visible_count(s.drop_first(), s[0] != 'm')
    } else {
        1 + visible_count(s.drop_first(), false)
    }
}

/// The characters of `s` outside ANSI SGR escapes, given whether the scan
/// starts inside an escape.
pub open spec fn visible_chars(s: Seq<char>, in_escape: bool) -> Seq<char>
    decreases s.len(),
{
    if s.len() == 0 {
        seq![]
    } else if s[0] == '\x1b' {
        visible_chars(s.drop_first(), true)
    } else if in_escape {
        visible_chars(s.drop_first(), s[0] != 'm')
    } else {
        seq![s[0]] + visible_chars(s.drop_first(), false)
    }
}

/// The visible character count of a string: ANSI SGR escape sequences
/// (`ESC [ … m`) are not counted.
pub fn visible_len(s: &str) -> (n: usize)
    ensures
        n == visible_count(s@, false),
{
    let v = chars_of(s);
    let mut len: usize = 0;
    let mut in_escape = false;
    let mut i: usize = 0;
    assert(v@.skip(0) =~= v@);
    while i < v.len()
        invariant
            i <= v@.len(),
            v@ == s@,
            len <= i,
            len + visible_count(v@.skip(i as int), in_escape) == visible_count(s@, false),
        decreases v.len() - i,
    {
        let c = v[i];
        proof {
            assert(v@.skip(i as int).drop_first() =~= v@.skip(i + 1));
        }
        if c == '\x1b' {
            in_escape = true;
        } else if in_escape {
            if c == 'm' {
                in_escape = false;
            }
        } else {
            len = len + 1;
        }
        i = i + 1;
    }
    assert(v@.skip(i as int).len() == 0);
    assert(s@.skip(0) =~= s@);
    len
}

/// `s` with its ANSI SGR escape sequences removed.
pub fn strip_ansi(s: &str) -> (r: String)
    ensures
        r@ == visible_chars(s@, false),
{
    let v = chars_of(s);
    let mut out = String::new();
    let mut in_escape = false;
    let mut i: usize = 0;
    assert(v@.skip(0) =~= v@);
    while i < v.len()
        invariant
            i <= v@.len(),
            v@ == s@,
            out@ + visible_chars(v@.skip(i as int), in_escape) == visible_chars(s@, false),
        decreases v.len() - i,
    {
        let c = v[i];
        proof {
            assert(v@.skip(i as int).drop_first() =~= v@.skip(i + 1));
        }
        let ghost before = out@;
        if c == '\x1b' {
            in_escape = true;
        } else if in_escape {
            if c == 'm' {
                in_escape = false;
            }
        } else {
            push_char(&mut out, c);
            assert(before + (seq![c] + visible_chars(v@.skip(i + 1), false)) =~= out@
                + visible_chars(v@.skip(i + 1), false));
        }
        i = i + 1;
    }
    assert(v@.skip(i as int).len() == 0);
    assert(out@ =~= out@ + Seq::<char>::empty());
    out
}

/// Escapes only ever hide characters: the visible length of a text is at
/// most its number of characters.
pub proof fn law_visible_len_at_most_chars(s: Seq<char>, in_escape: bool)
    ensures
        visible_count(s, in_escape) <= s.len(),
    decreases s.len(),
{
    if s.len() > 0 {
        if s[0] == '\x1b' {
            law_visible_len_at_most_chars(s.drop_first(), true);
        } else if in_escape {
            law_visible_len_at_most_chars(s.drop_first(), s[0] != 'm');
        } else {
            law_visible_len_at_most_chars(s.drop_first(), false);
        }
    }
}

/// Counting the visible characters and stripping the escapes agree: the
/// visible length of a text is the length of what `strip_ansi` keeps.
pub proof fn law_visible_len_is_stripped_len(s: Seq<char>, in_escape: bool)
    ensures
        visible_count(s, in_escape) == visible_chars(s, in_escape).len(),
    decreases s.len(),
{
    if s.len() > 0 {
        if s[0] == '\x1b' {
            law_visible_len_is_stripped_len(s.drop_first(), true);
        } else if in_escape {
            law_visible_len_is_stripped_len(s.drop_first(), s[0] != 'm');
        } else {
            law_visible_len_is_stripped_len(s.drop_first(), false);
        }
    }
}


/// Whether output is coloured: on a terminal, unless `NO_COLOR` is set
/// (no-color.org).
pub fn should_color(is_tty: bool, no_color_set: bool) -> (b: bool)
    ensures
        b == (is_tty && !no_color_set),
{
    is_tty && !no_color_set
}

} // verus!
