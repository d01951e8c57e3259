//! Glob patterns, matched by the `globset` crate.
use vstd::prelude::*;

use crate::config::schema::strings_view;

verus! {

/// The error text `globset::Glob::new` reports for `pattern`, or `None` when
/// the pattern compiles.
pub uninterp spec fn glob_error(pattern: Seq<char>) -> Option<Seq<char>>;

/// The error text `globset::GlobSetBuilder::build` reports for a set made of
/// `patterns` (each accepted by `Glob::new`), or `None` when the set builds.
pub uninterp spec fn glob_set_error(patterns: Seq<Seq<char>>) -> Option<Seq<char>>;

/// Whether the set built from `patterns` matches `path`
/// (`globset::GlobSet::is_match`: some glob of the set matches the path).
pub uninterp spec fn glob_set_matches(patterns: Seq<Seq<char>>, path: Seq<char>) -> bool;

/// Compiles `pattern` with `globset::Glob::new` and returns the text of its
/// error, if any. The contract claims only that the answer is the one the
/// crate gives for this pattern (`glob_error`).
#[verifier::external_body]
pub(crate) fn glob_parse_error(pattern: &str) -> (r: Option<String>)
    ensures
        match r {
            Some(e) => glob_error(pattern@) == Some(e@),
            None => glob_error(pattern@) is None,
        },
{
    globset::Glob::new(pattern).err().map(|e| e.to_string())
}

/// Builds a `globset::GlobSet` from `patterns` with `GlobSetBuilder` and
/// returns the text of the build error, if any. The build compiles the
/// set's regexes and reports, rather than panics on, one that is too large.
/// The contract claims only that the answer is the crate's for these
/// patterns (`glob_set_error`).
#[verifier::external_body]
pub(crate) fn glob_set_build_error(patterns: &Vec<String>) -> (r: Option<String>)
    requires
        forall|j: int| 0 <= j < patterns@.len() ==> glob_error(#[trigger] patterns@[j]@) is None,
    ensures
        match r {
            Some(e) => glob_set_error(strings_view(patterns@)) == Some(e@),
            None => glob_set_error(strings_view(patterns@)) is None,
        },
{
    let mut builder = globset::GlobSetBuilder::new();
    for p in patterns {
        match globset::Glob::new(p) {
            Ok(g) => {
                builder.add(g);
            },
            Err(e) => return Some(e.to_string()),
        }
    }
    builder.build().err().map(|e| e.to_string())
}

/// Matches `path` against the set built from `patterns`
/// (`GlobSetBuilder::build`, then `GlobSet::is_match`). The `requires`
/// says the set builds, so no step of it fails here. The contract claims
/// only that the answer is the crate's for these patterns and this path
/// (`glob_set_matches`).
#[verifier::external_body]
pub(crate) fn glob_set_is_match(patterns: &Vec<String>, path: &str) -> (r: bool)
    requires
        forall|j: int| 0 <= j < patterns@.len() ==> glob_error(#[trigger] patterns@[j]@) is None,
        glob_set_error(strings_view(patterns@)) is None,
    ensures
        r == glob_set_matches(strings_view(patterns@), path@),
{
    let mut builder = globset::GlobSetBuilder::new();
    for p in patterns {
        match globset::Glob::new(p) {
            Ok(g) => {
                builder.add(g);
            },
            Err(_) => return false,
        }
    }
    match builder.build() {
        Ok(set) => set.is_match(path),
        Err(_) => false,
    }
}

/// The index of the first pattern that does not compile.
pub open spec fn first_bad_glob(patterns: Seq<Seq<char>>) -> Option<int>
    decreases patterns.len(),
{
    if patterns.len() == 0 {
        None
    } else if glob_error(patterns[0]) is Some {
        Some(0)
    } else {
        match first_bad_glob(patterns.drop_first()) {
            Some(i) => Some(i + 1),
            None => None,
        }
    }
}

pub proof fn lemma_first_bad_glob(patterns: Seq<Seq<char>>)
    ensures
        match first_bad_glob(patterns) {
            Some(i) => 0 <= i < patterns.len() && glob_error(patterns[i]) is Some && forall|j: int|
                0 <= j < i ==> glob_error(#[trigger] patterns[j]) is None,
            None => forall|j: int| 0 <= j < patterns.len() ==> glob_error(#[trigger] patterns[j]) is None,
        },
    decreases patterns.len(),
{
    if patterns.len() > 0 {
        lemma_first_bad_glob(patterns.drop_first());
        if glob_error(patterns[0]) is None {
            match first_bad_glob(patterns.drop_first()) {
                Some(i) => {
                    assert forall|j: int| 0 <= j < i + 1 implies glob_error(#[trigger] patterns[j]) is None by {
                        if j > 0 {
                            assert(patterns[j] == patterns.drop_first()[j - 1]);
                        }
                    }
                    assert(patterns[i + 1] == patterns.drop_first()[i]);
                },
                None => {
                    assert forall|j: int| 0 <= j < patterns.len() implies glob_error(#[trigger] patterns[j]) is None by {
                        if j > 0 {
                            assert(patterns[j] == patterns.drop_first()[j - 1]);
                        }
                    }
                },
            }
        }
    }
}

} // verus!
