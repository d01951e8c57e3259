//! Finding the configuration file: walking up from the working directory,
//! the per-user fallback, and the message shown when neither exists.
use vstd::prelude::*;

use crate::config::schema::strings_view;
use crate::config::ConfigSource;
use crate::path::{
    ancestor_dirs, components, components_chars, from_components, from_components_exec, join_path, join_path_of,
    rooted, strip_prefix, strip_prefix_of, texts,
};
use crate::text::{chars_of, push_char, push_str};

verus! {

pub const CONFIG_FILENAME: &'static str = ".baraddur.toml";

pub const GLOBAL_RELATIVE: &'static str = ".config/baraddur/config.toml";

/// What `walk_up` found, and every directory it searched.
pub struct WalkResult {
    pub found: Option<String>,
    pub searched: Vec<String>,
}

// ── Specification ───────────────────────────────────────────────────────────

/// Where the configuration file would be in `dir`.
pub open spec fn candidate(dir: Seq<char>) -> Seq<char> {
    join_path(dir, CONFIG_FILENAME@)
}

/// Index of the first `true` in `answers`.
pub open spec fn first_true(answers: Seq<bool>) -> Option<int>
    decreases answers.len(),
{
    if answers.len() == 0 {
        None
    } else if answers[0] {
        Some(0)
    } else {
        match first_true(answers.drop_first()) {
            Some(i) => Some(i + 1),
            None => None,
        }
    }
}

/// The outcome of a walk over `dirs`, nearest first, given for each whether
/// its candidate file exists: the candidate of the first directory whose
/// answer is yes, with the directories up to and including it; or nothing,
/// with every directory.
pub open spec fn walk_decision(dirs: Seq<Seq<char>>, answers: Seq<bool>) -> (
    Option<Seq<char>>,
    Seq<Seq<char>>,
) {
    match first_true(answers) {
        Some(k) => (Some(candidate(dirs[k])), dirs.take(k + 1)),
        None => (None, dirs),
    }
}

/// The found path and searched directories of a walk result, by their text.
pub open spec fn walk_view(r: WalkResult) -> (Option<Seq<char>>, Seq<Seq<char>>) {
    (
        match r.found {
            Some(f) => Some(f@),
            None => None,
        },
        strings_view(r.searched@),
    )
}

/// `g` written from the home directory (`~/...`) when it lies inside it.
pub open spec fn home_relative(g: Seq<char>, home: Option<Seq<char>>) -> Seq<char> {
    match home {
        Some(h) => match strip_prefix(g, h) {
            Some(rel) => "~/"@ + rel,
            None => g,
        },
        None => g,
    }
}

/// One indented line per searched directory.
pub open spec fn searched_lines(searched: Seq<Seq<char>>) -> Seq<char>
    decreases searched.len(),
{
    if searched.len() == 0 {
        seq![]
    } else {
        searched_lines(searched.drop_last()) + "\n  "@ + searched.last()
    }
}

pub open spec fn not_found_example() -> Seq<char> {
    "\n\ncreate a .baraddur.toml in your project root. minimal example:\n\n  [watch]\n  extensions = [\"rs\"]\n\n  [[steps]]\n  name = \"check\"\n  cmd  = \"cargo check\""@
}

/// The message shown when no configuration file was found.
pub open spec fn not_found_text(
    searched: Seq<Seq<char>>,
    global: Option<Seq<char>>,
    home: Option<Seq<char>>,
) -> Seq<char> {
    "no .baraddur.toml found in this directory or any parent"@ + match global {
        Some(g) => ",\n          and no "@ + home_relative(g, home) + "."@,
        None => "."@,
    } + not_found_example() + if searched.len() == 0 {
        seq![]
    } else {
        "\n\n(searched:"@ + searched_lines(searched) + ")"@
    }
}

/// The text of an optional string slice.
pub open spec fn text_opt(o: Option<&str>) -> Option<Seq<char>> {
    match o {
        Some(s) => Some(s@),
        None => None,
    }
}

// ── Trusted calls ───────────────────────────────────────────────────────────

/// Whether `p` names an existing regular file (`std::path::Path::is_file`).
/// The answer depends on the disk, so nothing is stated of it.
#[verifier::external_body]
fn path_is_file(p: &str) -> bool {
    std::path::Path::new(p).is_file()
}

/// The user's home directory (`dirs::home_dir`), as text. It depends on the
/// environment, so nothing is stated of it.
#[verifier::external_body]
fn home_dir_text() -> Option<String> {
    match dirs::home_dir() {
        Some(h) => Some(h.to_string_lossy().into_owned()),
        None => None,
    }
}

// ── Executable operations ───────────────────────────────────────────────────

proof fn lemma_first_true(answers: Seq<bool>)
    ensures
        match first_true(answers) {
            Some(k) => 0 <= k < answers.len() && answers[k] && forall|j: int|
                0 <= j < k ==> !answers[j],
            None => forall|j: int| 0 <= j < answers.len() ==> !answers[j],
        },
    decreases answers.len(),
{
    if answers.len() > 0 {
        let rest = answers.drop_first();
        lemma_first_true(rest);
        assert forall|j: int| 0 < j < answers.len() implies answers[j] == rest[j - 1] by {}
    }
}

/// The directory `start` and its parents, nearest first (see
/// `ancestor_dirs`).
pub fn ancestors(start: &str) -> (dirs: Vec<String>)
    ensures
        strings_view(dirs@) == ancestor_dirs(start@),
{
    let cs = components_chars(&chars_of(start));
    let n = cs.len();
    let is_rooted = n > 0 && cs[0].len() == 1 && cs[0][0] == '/';
    proof {
        if n > 0 {
            assert(texts(cs@)[0] == cs@[0]@);
            if cs@[0]@.len() == 1 && cs@[0]@[0] == '/' {
                assert(cs@[0]@ =~= seq!['/']);
            }
            if cs@[0]@ == seq!['/'] {
                assert(cs@[0]@.len() == 1);
            }
        }
    }
    let low: usize = if is_rooted {
        1
    } else {
        0
    };
    let ghost dirs = ancestor_dirs(start@);
    let ghost comps = components(start@);
    assert(low == (if rooted(comps) {
        1int
    } else {
        0int
    }));
    let mut out: Vec<String> = Vec::new();
    let mut dir: String = start.to_owned();
    let mut k: usize = n;
    loop
        invariant
            texts(cs@) == comps,
            comps == components(start@),
            dirs == ancestor_dirs(start@),
            n == cs@.len(),
            low <= k <= n,
            k + out@.len() == n,
            out@.len() < dirs.len(),
            dir@ == dirs[out@.len() as int],
            strings_view(out@) == dirs.take(out@.len() as int),
            low == (if rooted(comps) {
                1int
            } else {
                0int
            }),
        decreases k,
    {
        let ghost m: int = out@.len() as int;
        let ghost before = strings_view(out@);
        out.push(dir);
        proof {
            assert(strings_view(out@) =~= before.push(dirs[m]));
            assert(dirs.take(m + 1) =~= dirs.take(m).push(dirs[m]));
        }
        if k <= low {
            assert(out@.len() == dirs.len());
            assert(dirs.take(dirs.len() as int) =~= dirs);
            return out;
        }
        k = k - 1;
        dir = from_components_exec(&cs, 0, k);
        proof {
            assert(texts(cs@).subrange(0, k as int) =~= comps.take(k as int));
            assert(dirs[m + 1] == from_components(comps.take(comps.len() - 1 - m)));
        }
    }
}

/// Decides a walk from the answers of the file probes: `is_file[i]` says
/// whether `dirs[i]` holds a `.baraddur.toml`. The result is the first
/// directory with a yes and the directories up to it, or nothing and every
/// directory (see `walk_decision`).
pub fn walk_decide(dirs: &[String], is_file: &[bool]) -> (r: WalkResult)
    requires
        is_file@.len() == dirs@.len(),
    ensures
        walk_view(r) == walk_decision(strings_view(dirs@), is_file@),
{
    let ghost dv = strings_view(dirs@);
    proof {
        lemma_first_true(is_file@);
    }
    let mut searched: Vec<String> = Vec::new();
    let mut i: usize = 0;
    while i < dirs.len()
        invariant
            i <= dirs@.len(),
            is_file@.len() == dirs@.len(),
            dv == strings_view(dirs@),
            strings_view(searched@) == dv.take(i as int),
            forall|j: int| 0 <= j < i ==> !is_file@[j],
        decreases dirs.len() - i,
    {
        let ghost before = strings_view(searched@);
        searched.push(dirs[i].clone());
        proof {
            assert(strings_view(searched@) =~= before.push(dv[i as int]));
            assert(dv.take(i + 1) =~= dv.take(i as int).push(dv[i as int]));
        }
        if is_file[i] {
            let found = join_path_of(dirs[i].as_str(), CONFIG_FILENAME);
            proof {
                lemma_first_true(is_file@);
                let f = first_true(is_file@);
                match f {
                    Some(k) => {
                        if k < i {
                            assert(!is_file@[k]);
                        }
                        if k > i {
                            assert(!is_file@[i as int]);
                        }
                    },
                    None => {
                        assert(!is_file@[i as int]);
                    },
                }
            }
            return WalkResult { found: Some(found), searched };
        }
        i = i + 1;
    }
    proof {
        lemma_first_true(is_file@);
        match first_true(is_file@) {
            Some(k) => {
                assert(is_file@[k]);
            },
            None => {},
        }
        assert(dv.take(dv.len() as int) =~= dv);
    }
    WalkResult { found: None, searched }
}

/// `answer` is what `is_file` returned for the candidate file of `dir`.
pub open spec fn probe_gave<F: Fn(&str) -> bool>(is_file: F, dir: Seq<char>, answer: bool) -> bool {
    exists|p: &str| p@ == candidate(dir) && #[trigger] is_file.ensures((p,), answer)
}

/// The answers a walk over `dirs` decided on came from `is_file`: one per
/// directory, and each one the walk reached (every earlier answer no) is
/// what `is_file` returned for that directory's candidate file.
pub open spec fn answered_by<F: Fn(&str) -> bool>(
    is_file: F,
    dirs: Seq<Seq<char>>,
    answers: Seq<bool>,
) -> bool {
    &&& answers.len() == dirs.len()
    &&& forall|i: int|
        0 <= i < dirs.len() && (forall|j: int| 0 <= j < i ==> !#[trigger] answers[j]) ==> probe_gave(
            is_file,
            #[trigger] dirs[i],
            answers[i],
        )
}

/// Walks upward from `start`, asking `is_file` about each directory's
/// `.baraddur.toml`, nearest first, and stops at the first yes. The result
/// is the walk decided on `is_file`'s own answers (see `walk_decision`).
pub fn walk_up_probing<F: Fn(&str) -> bool>(start: &str, is_file: F) -> (r: WalkResult)
    requires
        forall|p: &str| #[trigger] is_file.requires((p,)),
    ensures
        exists|answers: Seq<bool>|
            answered_by(is_file, ancestor_dirs(start@), answers) && walk_view(r)
                == #[trigger] walk_decision(ancestor_dirs(start@), answers),
{
    let dirs = ancestors(start);
    let ghost dv = strings_view(dirs@);
    let mut answers: Vec<bool> = Vec::new();
    let mut j: usize = 0;
    let mut yes_seen = false;
    while j < dirs.len() && !yes_seen
        invariant
            j <= dirs@.len(),
            dv == strings_view(dirs@),
            answers@.len() == j,
            forall|p: &str| #[trigger] is_file.requires((p,)),
            yes_seen == (j > 0 && answers@[j - 1]),
            forall|k: int| 0 <= k < j - 1 ==> !#[trigger] answers@[k],
            forall|i: int| 0 <= i < j ==> probe_gave(is_file, #[trigger] dv[i], answers@[i]),
        decreases dirs.len() - j,
    {
        let cand = join_path_of(dirs[j].as_str(), CONFIG_FILENAME);
        let cs: &str = cand.as_str();
        let yes = is_file(cs);
        proof {
            assert(dv[j as int] == dirs@[j as int]@);
            assert(cs@ == candidate(dv[j as int]));
        }
        let ghost before = answers@;
        answers.push(yes);
        proof {
            assert forall|i: int| 0 <= i < j + 1 implies probe_gave(is_file, #[trigger] dv[i], answers@[i]) by {
                if i < j {
                    assert(answers@[i] == before[i]);
                } else {
                    assert(answers@[i] == yes);
                    assert(is_file.ensures((cs,), yes));
                    assert(cs@ == candidate(dv[i]) && is_file.ensures((cs,), answers@[i]));
                }
            }
            assert forall|k: int| 0 <= k < j implies !#[trigger] answers@[k] by {
                assert(answers@[k] == before[k]);
            }
        }
        j = j + 1;
        yes_seen = yes;
    }
    let ghost probed = answers@;
    proof {
        if probed.len() < dv.len() {
            assert(yes_seen);
            assert(probed.len() > 0 && probed[probed.len() - 1]);
        }
    }
    while answers.len() < dirs.len()
        invariant
            answers@.len() <= dirs@.len(),
            probed.len() <= answers@.len(),
            answers@.take(probed.len() as int) == probed,
            forall|k: int| probed.len() <= k < answers@.len() ==> !#[trigger] answers@[k],
        decreases dirs@.len() - answers@.len(),
    {
        let ghost before = answers@;
        answers.push(false);
        assert(answers@.take(probed.len() as int) =~= before.take(probed.len() as int));
    }
    let r = walk_decide(dirs.as_slice(), answers.as_slice());
    proof {
        let a = answers@;
        assert(a.take(probed.len() as int) == probed);
        assert forall|i: int|
            0 <= i < dv.len() && (forall|j: int| 0 <= j < i ==> !#[trigger] a[j])
            implies probe_gave(is_file, #[trigger] dv[i], a[i]) by {
            if i < probed.len() {
                assert(a[i] == probed[i]);
            } else {
                // Padding happens only after a yes, which comes before `i`.
                assert(probed.len() > 0 && probed[probed.len() - 1]);
                assert(a[probed.len() - 1] == probed[probed.len() - 1]);
                assert(!a[probed.len() - 1]);
            }
        }
        assert(answered_by(is_file, ancestor_dirs(start@), a));
    }
    r
}

/// A walk stops at the first directory whose file exists: it finds that
/// directory's candidate and has searched exactly the directories up to and
/// including it; when no directory has the file it finds nothing and has
/// searched them all.
pub proof fn law_walk_stops_at_first_file(dirs: Seq<Seq<char>>, answers: Seq<bool>)
    requires
        answers.len() == dirs.len(),
    ensures
        (forall|k: int| 0 <= k < answers.len() ==> !#[trigger] answers[k]) ==> walk_decision(
            dirs,
            answers,
        ) == (None::<Seq<char>>, dirs),
        forall|k: int|
            0 <= k < answers.len() && #[trigger] answers[k] && (forall|j: int|
                0 <= j < k ==> !#[trigger] answers[j]) ==> walk_decision(dirs, answers) == (
                Some(candidate(dirs[k])),
                dirs.take(k + 1),
            ),
{
    lemma_first_true(answers);
    assert forall|k: int|
        0 <= k < answers.len() && #[trigger] answers[k] && (forall|j: int|
            0 <= j < k ==> !#[trigger] answers[j]) implies walk_decision(dirs, answers) == (
        Some(candidate(dirs[k])),
        dirs.take(k + 1),
    ) by {
        match first_true(answers) {
            Some(f) => {
                if f < k {
                    assert(!answers[f]);
                }
                if f > k {
                    assert(!answers[k]);
                }
            },
            None => {
                assert(!answers[k]);
            },
        }
    }
    if forall|k: int| 0 <= k < answers.len() ==> !#[trigger] answers[k] {
        match first_true(answers) {
            Some(f) => {
                assert(!answers[f]);
            },
            None => {},
        }
    }
}

/// The walk probes `start` itself first: when the probe says `start`'s
/// `.baraddur.toml` exists, the walk finds it there, having searched only
/// `start`.
pub proof fn law_walk_probes_start_first<F: Fn(&str) -> bool>(
    is_file: F,
    start: Seq<char>,
    answers: Seq<bool>,
)
    requires
        answered_by(is_file, ancestor_dirs(start), answers),
        forall|p: &str, b: bool| p@ == candidate(start) && #[trigger] is_file.ensures((p,), b) ==> b,
    ensures
        walk_decision(ancestor_dirs(start), answers) == (Some(candidate(start)), seq![start]),
{
    let dirs = ancestor_dirs(start);
    assert(dirs[0] == start);
    assert(forall|j: int| 0 <= j < 0 ==> !#[trigger] answers[j]);
    assert(probe_gave(is_file, dirs[0], answers[0]));
    let p = choose|p: &str| p@ == candidate(dirs[0]) && #[trigger] is_file.ensures((p,), answers[0]);
    assert(answers[0]);
    law_walk_stops_at_first_file(dirs, answers);
    assert(dirs.take(1) =~= seq![start]);
}

/// Walks upward from `start`, returning the first `.baraddur.toml` found.
/// Also returns every directory that was searched, for error reporting.
/// Each directory, nearest first, is probed on the disk until one holds the
/// file (see `walk_up_probing`); the probes' answers are the disk's, so the
/// contract states the walk over some answers for the ancestors of `start`.
pub fn walk_up(start: &str) -> (r: WalkResult)
    ensures
        exists|answers: Seq<bool>|
            answers.len() == ancestor_dirs(start@).len() && walk_view(r) == #[trigger] walk_decision(
                ancestor_dirs(start@),
                answers,
            ),
{
    let r = walk_up_probing(start, |p: &str| path_is_file(p));
    r
}

/// `~/.config/baraddur/config.toml` for the home directory `home`.
pub fn global_path_under(home: &str) -> (p: String)
    ensures
        p@ == join_path(home@, GLOBAL_RELATIVE@),
{
    join_path_of(home, GLOBAL_RELATIVE)
}

/// Returns `~/.config/baraddur/config.toml`, or `None` if the home
/// directory is unresolvable. Does not check whether the file exists.
pub fn global_path() -> (r: Option<String>)
    ensures
        r matches Some(p) ==> exists|h: Seq<char>| p@ == join_path(h, GLOBAL_RELATIVE@),
{
    match home_dir_text() {
        Some(h) => {
            let p = global_path_under(h.as_str());
            assert(p@ == join_path(h@, GLOBAL_RELATIVE@));
            Some(p)
        },
        None => None,
    }
}

/// The "no config found" message, given the home directory used to
/// shorten the global path.
pub fn not_found_message(searched: &[String], global: Option<&str>, home: Option<&str>) -> (msg:
    String)
    ensures
        msg@ == not_found_text(strings_view(searched@), text_opt(global), text_opt(home)),
{
    let mut msg = String::new();
    push_str(&mut msg, "no .baraddur.toml found in this directory or any parent");
    let ghost head = msg@;
    match global {
        Some(g) => {
            push_str(&mut msg, ",\n          and no ");
            let rel = match home {
                Some(h) => match strip_prefix_of(g, h) {
                    Some(rel) => {
                        let mut t = String::new();
                        push_char(&mut t, '~');
                        push_char(&mut t, '/');
                        push_str(&mut t, rel.as_str());
                        proof {
                            reveal_strlit("~/");
                            assert(t@ =~= "~/"@ + rel@);
                        }
                        t
                    },
                    None => g.to_owned(),
                },
                None => g.to_owned(),
            };
            push_str(&mut msg, rel.as_str());
            push_char(&mut msg, '.');
            proof {
                reveal_strlit(".");
            }
        },
        None => {
            push_char(&mut msg, '.');
            proof {
                reveal_strlit(".");
            }
        },
    }
    push_str(
        &mut msg,
        "\n\ncreate a .baraddur.toml in your project root. minimal example:\n\n  [watch]\n  extensions = [\"rs\"]\n\n  [[steps]]\n  name = \"check\"\n  cmd  = \"cargo check\"",
    );
    let ghost sv = strings_view(searched@);
    if searched.len() > 0 {
        let ghost base = msg@;
        push_str(&mut msg, "\n\n(searched:");
        let ghost opened = msg@;
        let mut i: usize = 0;
        assert(sv.take(0) =~= Seq::<Seq<char>>::empty());
        while i < searched.len()
            invariant
                i <= searched@.len(),
                sv == strings_view(searched@),
                msg@ == opened + searched_lines(sv.take(i as int)),
            decreases searched.len() - i,
        {
            push_str(&mut msg, "\n  ");
            push_str(&mut msg, searched[i].as_str());
            proof {
                assert(sv.take(i + 1).drop_last() =~= sv.take(i as int));
                assert(sv.take(i + 1).last() == searched@[i as int]@);
            }
            i = i + 1;
        }
        assert(sv.take(i as int) =~= sv);
        push_char(&mut msg, ')');
        proof {
            reveal_strlit(")");
        }
    }
    msg
}

/// Renders the "no config found" message. Phrasing is stable.
pub fn not_found_error(searched: &[String], global: Option<&str>) -> (msg: String)
    ensures
        exists|home: Option<Seq<char>>|
            msg@ == #[trigger] not_found_text(strings_view(searched@), text_opt(global), home),
{
    let home = home_dir_text();
    let msg = match &home {
        Some(h) => not_found_message(searched, global, Some(h.as_str())),
        None => not_found_message(searched, global, None),
    };
    let ghost hv = match home {
        Some(h) => Some(h@),
        None => None,
    };
    assert(msg@ == not_found_text(strings_view(searched@), text_opt(global), hv));
    msg
}

/// The configuration file to load and how it was located, in order: an
/// explicit path, the walk-up result, then the global file when it exists.
/// `Err` carries the "no config found" message.
pub fn locate_config(
    cli_override: Option<&str>,
    walk: &WalkResult,
    global: Option<&str>,
    global_is_file: bool,
) -> (r: Result<(String, ConfigSource), String>)
    ensures
        match cli_override {
            Some(p) => r matches Ok(v) && v.0@ == p@ && v.1 == ConfigSource::CliOverride,
            None => match walk.found {
                Some(f) => r matches Ok(v) && v.0@ == f@ && v.1 == ConfigSource::WalkUp,
                None => match global {
                    Some(g) => if global_is_file {
                        r matches Ok(v) && v.0@ == g@ && v.1 == ConfigSource::Global
                    } else {
                        r matches Err(m) && exists|home: Option<Seq<char>>|
                            m@ == #[trigger] not_found_text(strings_view(walk.searched@), Some(g@), home)
                    },
                    None => r matches Err(m) && exists|home: Option<Seq<char>>|
                        m@ == #[trigger] not_found_text(strings_view(walk.searched@), None, home),
                },
            },
        },
{
    match cli_override {
        Some(p) => Ok((p.to_owned(), ConfigSource::CliOverride)),
        None => match &walk.found {
            Some(f) => Ok((f.clone(), ConfigSource::WalkUp)),
            None => match global {
                Some(g) => {
                    if global_is_file {
                        Ok((g.to_owned(), ConfigSource::Global))
                    } else {
                        Err(not_found_error(walk.searched.as_slice(), Some(g)))
                    }
                },
                None => Err(not_found_error(walk.searched.as_slice(), None)),
            },
        },
    }
}

} // verus!
