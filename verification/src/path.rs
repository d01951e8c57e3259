//! Paths as text, with the component semantics of `std::path` on Unix.
//!
//! A path's components are: `/` when it is absolute, `.` when it starts
//! with `./` (or is `.`), then its `/`-separated pieces without the empty
//! ones and without `.`. Prefix tests, stripping and parents work on
//! components; the paths they produce are the remaining components joined
//! with `/` (so repeated separators and inner `.` pieces are normalised).
use vstd::prelude::*;

use crate::config::schema::strings_view;
use crate::text::{join, push_char, push_str, chars_of, slice_chars, string_of};

verus! {

// ── Specification ───────────────────────────────────────────────────────────

/// Length of the leading piece of `s` before the first `/`.
pub open spec fn piece_len(s: Seq<char>) -> nat
    decreases s.len(),
{
    if s.len() == 0 || s[0] == '/' {
        0
    } else {
        1 + piece_len(s.drop_first())
    }
}

/// The `/`-separated pieces of `s` that name something: not empty, not `.`.
pub open spec fn normal_parts(s: Seq<char>) -> Seq<Seq<char>>
    decreases s.len(),
{
    if s.len() == 0 {
        seq![]
    } else {
        let k = piece_len(s);
        let piece = s.take(k as int);
        let head: Seq<Seq<char>> = if piece.len() > 0 && piece != seq!['.'] {
            seq![piece]
        } else {
            seq![]
        };
        if k < s.len() {
            head + normal_parts(s.skip(k as int + 1))
        } else {
            head
        }
    }
}

/// Whether `p` starts with a `.` component (`.` or `./…`).
pub open spec fn starts_with_cur_dir(p: Seq<char>) -> bool {
    p.len() > 0 && p[0] == '.' && (p.len() == 1 || p[1] == '/')
}

/// The components of `p`, each written as its text (`/` for the root).
pub open spec fn components(p: Seq<char>) -> Seq<Seq<char>> {
    if p.len() > 0 && p[0] == '/' {
        seq![seq!['/']] + normal_parts(p.drop_first())
    } else if starts_with_cur_dir(p) {
        seq![seq!['.']] + normal_parts(p.drop_first())
    } else {
        normal_parts(p)
    }
}

/// The path made of `cs`, joined with `/` (the root contributes the
/// leading `/`).
pub open spec fn from_components(cs: Seq<Seq<char>>) -> Seq<char> {
    if cs.len() > 0 && cs[0] == seq!['/'] {
        seq!['/'] + join(cs.drop_first(), seq!['/'])
    } else {
        join(cs, seq!['/'])
    }
}

pub open spec fn is_prefix_of(a: Seq<Seq<char>>, b: Seq<Seq<char>>) -> bool {
    a.len() <= b.len() && b.take(a.len() as int) == a
}

/// `path.starts_with(base)`: `base`'s components begin `path`'s.
pub open spec fn path_starts_with(path: Seq<char>, base: Seq<char>) -> bool {
    is_prefix_of(components(base), components(path))
}

/// `path.strip_prefix(base)`: the rest of `path` after `base`'s components.
pub open spec fn strip_prefix(path: Seq<char>, base: Seq<char>) -> Option<Seq<char>> {
    if path_starts_with(path, base) {
        Some(from_components(components(path).skip(components(base).len() as int)))
    } else {
        None
    }
}

/// `base.join(p)`: `p` when it is absolute, else `base`, a `/` unless
/// `base` is empty or already ends in one, then `p`.
pub open spec fn join_path(base: Seq<char>, p: Seq<char>) -> Seq<char> {
    if p.len() > 0 && p[0] == '/' {
        p
    } else if base.len() > 0 && base.last() != '/' {
        base + seq!['/'] + p
    } else {
        base + p
    }
}

/// `p.parent()`: `None` for the root and for the empty path.
pub open spec fn parent(p: Seq<char>) -> Option<Seq<char>> {
    let cs = components(p);
    if cs.len() == 0 || cs.last() == seq!['/'] {
        None
    } else {
        Some(from_components(cs.drop_last()))
    }
}

/// `p.file_name()`: the last component when it names something.
pub open spec fn file_name(p: Seq<char>) -> Option<Seq<char>> {
    let cs = components(p);
    if cs.len() == 0 || cs.last() == seq!['/'] || cs.last() == seq!['.'] || cs.last() == seq![
        '.',
        '.',
    ] {
        None
    } else {
        Some(cs.last())
    }
}

/// Position of the last `.` in `s`.
pub open spec fn last_dot(s: Seq<char>) -> Option<int>
    decreases s.len(),
{
    if s.len() == 0 {
        None
    } else if s.last() == '.' {
        Some(s.len() - 1)
    } else {
        last_dot(s.drop_last())
    }
}

/// `p.extension()`: what follows the last `.` of the file name, unless the
/// only `.` starts the name.
pub open spec fn extension(p: Seq<char>) -> Option<Seq<char>> {
    match file_name(p) {
        None => None,
        Some(name) => match last_dot(name) {
            None => None,
            Some(d) => if d == 0 {
                None
            } else {
                Some(name.skip(d + 1))
            },
        },
    }
}

/// Whether the components `cs` begin at the root.
pub open spec fn rooted(cs: Seq<Seq<char>>) -> bool {
    cs.len() > 0 && cs[0] == seq!['/']
}

/// `p` followed by its successive parents: the paths made of the
/// components of `p` cut one at a time from the end, down to the root for
/// an absolute path and to the empty path for a relative one.
pub open spec fn ancestor_dirs(p: Seq<char>) -> Seq<Seq<char>> {
    let cs = components(p);
    let low: int = if rooted(cs) {
        1
    } else {
        0
    };
    let count: int = if cs.len() > low {
        cs.len() - low
    } else {
        0
    };
    seq![p] + Seq::new(count as nat, |j: int| from_components(cs.take(cs.len() - 1 - j)))
}

// ── Lemmas ──────────────────────────────────────────────────────────────────

proof fn lemma_piece_len(t: Seq<char>, k: int)
    requires
        0 <= k <= t.len(),
        forall|j: int| 0 <= j < k ==> t[j] != '/',
        k == t.len() || t[k] == '/',
    ensures
        piece_len(t) == k,
    decreases k,
{
    if k > 0 {
        lemma_piece_len(t.drop_first(), k - 1);
    }
}

proof fn lemma_last_dot(s: Seq<char>, d: int)
    requires
        -1 <= d < s.len(),
        d >= 0 ==> s[d] == '.',
        forall|j: int| d < j < s.len() ==> s[j] != '.',
    ensures
        last_dot(s) == if d >= 0 {
            Some(d)
        } else {
            None::<int>
        },
    decreases s.len(),
{
    if s.len() > 0 && s.last() != '.' {
        lemma_last_dot(s.drop_last(), d);
    }
}

// ── Executable operations ───────────────────────────────────────────────────

pub open spec fn texts(v: Seq<Vec<char>>) -> Seq<Seq<char>> {
    v.map_values(|c: Vec<char>| c@)
}

fn push_piece(out: &mut Vec<Vec<char>>, piece: Vec<char>)
    ensures
        texts(final(out)@) == texts(old(out)@) + (if piece@.len() > 0 && piece@ != seq!['.'] {
            seq![piece@]
        } else {
            Seq::<Seq<char>>::empty()
        }),
{
    let keep = piece.len() > 0 && !(piece.len() == 1 && piece[0] == '.');
    proof {
        if piece@.len() == 1 && piece@[0] == '.' {
            assert(piece@ =~= seq!['.']);
        }
        if piece@ == seq!['.'] {
            assert(piece@.len() == 1);
        }
    }
    if keep {
        out.push(piece);
        assert(texts(out@) =~= texts(old(out)@) + seq![piece@]);
    } else {
        assert(texts(out@) =~= texts(old(out)@) + Seq::<Seq<char>>::empty());
    }
}

/// The named pieces of `v[from..]` (see `normal_parts`).
fn normal_parts_of(v: &Vec<char>, from: usize) -> (out: Vec<Vec<char>>)
    requires
        from <= v@.len(),
    ensures
        texts(out@) == normal_parts(v@.skip(from as int)),
{
    let mut out: Vec<Vec<char>> = Vec::new();
    let mut start = from;
    let mut i = from;
    assert(texts(out@) + normal_parts(v@.skip(start as int)) =~= normal_parts(v@.skip(from as int)));
    while i < v.len()
        invariant
            from <= start <= i <= v@.len(),
            forall|j: int| start <= j < i ==> v@[j] != '/',
            texts(out@) + normal_parts(v@.skip(start as int)) == normal_parts(v@.skip(from as int)),
        decreases v.len() - i,
    {
        if v[i] == '/' {
            let ghost t = v@.skip(start as int);
            proof {
                lemma_piece_len(t, i - start);
                assert(t.take(i - start) =~= v@.subrange(start as int, i as int));
                assert(t.skip(i - start + 1) =~= v@.skip(i + 1));
            }
            let piece = slice_chars(v, start, i);
            let ghost before = texts(out@);
            push_piece(&mut out, piece);
            assert(texts(out@) + normal_parts(v@.skip(i + 1)) =~= before + normal_parts(t));
            start = i + 1;
        }
        i = i + 1;
    }
    let ghost t = v@.skip(start as int);
    if start < v.len() {
        proof {
            lemma_piece_len(t, v.len() - start);
            assert(t.take(v.len() - start) =~= t);
        }
        let piece = slice_chars(v, start, v.len());
        assert(piece@ =~= t);
        let ghost before = texts(out@);
        push_piece(&mut out, piece);
        assert(texts(out@) =~= before + normal_parts(t));
    } else {
        assert(t.len() == 0);
        assert(texts(out@) =~= texts(out@) + normal_parts(t));
    }
    out
}

fn prepend_comp(first: Vec<char>, rest: Vec<Vec<char>>) -> (out: Vec<Vec<char>>)
    ensures
        texts(out@) == seq![first@] + texts(rest@),
{
    let mut out: Vec<Vec<char>> = Vec::new();
    out.push(first);
    let mut rest = rest;
    let ghost rv = texts(rest@);
    let ghost head = out@;
    out.append(&mut rest);
    assert(texts(out@) =~= texts(head) + rv);
    assert(texts(head) =~= seq![head[0]@]);
    out
}

/// The components of `p` as character vectors.
pub(crate) fn components_chars(p: &Vec<char>) -> (out: Vec<Vec<char>>)
    ensures
        texts(out@) == components(p@),
{
    if p.len() > 0 && p[0] == '/' {
        let mut root: Vec<char> = Vec::new();
        root.push('/');
        assert(root@ =~= seq!['/']);
        let rest = normal_parts_of(p, 1);
        assert(p@.skip(1) =~= p@.drop_first());
        prepend_comp(root, rest)
    } else if p.len() > 0 && p[0] == '.' && (p.len() == 1 || p[1] == '/') {
        let mut cur: Vec<char> = Vec::new();
        cur.push('.');
        assert(cur@ =~= seq!['.']);
        let rest = normal_parts_of(p, 1);
        assert(p@.skip(1) =~= p@.drop_first());
        prepend_comp(cur, rest)
    } else {
        let out = normal_parts_of(p, 0);
        assert(p@.skip(0) =~= p@);
        out
    }
}

/// The components of `p`, each as its text.
pub fn components_of(p: &str) -> (out: Vec<String>)
    ensures
        strings_view(out@) == components(p@),
{
    let v = chars_of(p);
    let cs = components_chars(&v);
    let mut out: Vec<String> = Vec::new();
    let mut i: usize = 0;
    while i < cs.len()
        invariant
            i <= cs@.len(),
            texts(cs@) == components(p@),
            strings_view(out@) == texts(cs@).take(i as int),
        decreases cs.len() - i,
    {
        assert(texts(cs@)[i as int] == cs@[i as int]@);
        let ghost before = strings_view(out@);
        let t = string_of(&cs[i]);
        out.push(t);
        assert(strings_view(out@) =~= before.push(t@));
        assert(texts(cs@).take(i + 1) =~= texts(cs@).take(i as int).push(cs@[i as int]@));
        i = i + 1;
        assert(strings_view(out@) =~= texts(cs@).take(i as int));
    }
    assert(texts(cs@).take(i as int) =~= texts(cs@));
    out
}

fn same_text(a: &Vec<char>, b: &Vec<char>) -> (r: bool)
    ensures
        r == (a@ == b@),
{
    if a.len() != b.len() {
        return false;
    }
    let mut i: usize = 0;
    while i < a.len()
        invariant
            a@.len() == b@.len(),
            i <= a@.len(),
            forall|j: int| 0 <= j < i ==> a@[j] == b@[j],
        decreases a.len() - i,
    {
        if a[i] != b[i] {
            return false;
        }
        i = i + 1;
    }
    assert(a@ =~= b@);
    true
}

/// Whether the components `a` begin the components `b`.
fn prefix_comps(a: &Vec<Vec<char>>, b: &Vec<Vec<char>>) -> (r: bool)
    ensures
        r == is_prefix_of(texts(a@), texts(b@)),
{
    if a.len() > b.len() {
        return false;
    }
    let mut i: usize = 0;
    while i < a.len()
        invariant
            a@.len() <= b@.len(),
            i <= a@.len(),
            forall|j: int| 0 <= j < i ==> texts(a@)[j] == texts(b@)[j],
        decreases a.len() - i,
    {
        if !same_text(&a[i], &b[i]) {
            proof {
                assert(texts(b@).take(a@.len() as int)[i as int] == texts(b@)[i as int]);
            }
            return false;
        }
        i = i + 1;
    }
    assert(texts(b@).take(a@.len() as int) =~= texts(a@));
    true
}

/// Whether `a` and `b` name the same path, compared component by component
/// as `std::path::Path` equality does: `a//b`, `a/./b` and `a/b/` are all
/// the same path as `a/b`.
pub fn same_path(a: &str, b: &str) -> (r: bool)
    ensures
        r == (components(a@) == components(b@)),
{
    let ca = components_chars(&chars_of(a));
    let cb = components_chars(&chars_of(b));
    if ca.len() != cb.len() {
        assert(texts(ca@).len() != texts(cb@).len());
        return false;
    }
    let r = prefix_comps(&ca, &cb);
    proof {
        assert(texts(cb@).take(texts(ca@).len() as int) =~= texts(cb@));
    }
    r
}

/// Joins the components `cs[from..to]` into a path.
pub(crate) fn from_components_exec(cs: &Vec<Vec<char>>, from: usize, to: usize) -> (s: String)
    requires
        from <= to <= cs@.len(),
    ensures
        s@ == from_components(texts(cs@).subrange(from as int, to as int)),
{
    let ghost parts = texts(cs@).subrange(from as int, to as int);
    let mut s = String::new();
    let mut i = from;
    let rooted = from < to && cs[from].len() == 1 && cs[from][0] == '/';
    proof {
        if parts.len() > 0 {
            assert(parts[0] == cs@[from as int]@);
            if parts[0] == seq!['/'] {
                assert(parts[0].len() == 1);
            }
            if cs@[from as int]@.len() == 1 && cs@[from as int]@[0] == '/' {
                assert(cs@[from as int]@ =~= seq!['/']);
            }
        }
    }
    if rooted {
        push_char(&mut s, '/');
        i = i + 1;
    }
    let ghost body = if rooted { parts.drop_first() } else { parts };
    let first = i;
    assert(body =~= texts(cs@).subrange(first as int, to as int));
    let ghost lead = s@;
    assert(s@ == lead + join(body.take(0), seq!['/']));
    while i < to
        invariant
            first <= i <= to <= cs@.len(),
            body == texts(cs@).subrange(first as int, to as int),
            s@ == lead + join(body.take(i - first), seq!['/']),
        decreases to - i,
    {
        proof {
            assert(body.take(i - first + 1).drop_last() =~= body.take(i - first));
            assert(body.take(i - first + 1).last() == cs@[i as int]@);
        }
        if i > first {
            push_char(&mut s, '/');
        } else {
            assert(body.take(1).len() == 1);
        }
        let ghost before = s@;
        crate::text::push_chars(&mut s, &cs[i]);
        i = i + 1;
        proof {
            if i - first == 1 {
                assert(join(body.take(1), seq!['/']) == body.take(1)[0]);
            }
            assert(s@ =~= lead + join(body.take(i - first), seq!['/']));
        }
    }
    assert(body.take(i - first) =~= body);
    proof {
        if rooted {
            assert(lead =~= seq!['/']);
        } else {
            assert(lead =~= Seq::<char>::empty());
            assert(s@ =~= join(body, seq!['/']));
        }
    }
    s
}

/// `path.strip_prefix(base)` (see `strip_prefix`).
pub fn strip_prefix_of(path: &str, base: &str) -> (r: Option<String>)
    ensures
        match r {
            Some(s) => strip_prefix(path@, base@) == Some(s@),
            None => strip_prefix(path@, base@) is None,
        },
{
    let pc = components_chars(&chars_of(path));
    let bc = components_chars(&chars_of(base));
    if prefix_comps(&bc, &pc) {
        assert(texts(pc@).subrange(bc.len() as int, pc.len() as int) =~= texts(pc@).skip(
            bc.len() as int,
        ));
        Some(from_components_exec(&pc, bc.len(), pc.len()))
    } else {
        None
    }
}

/// `path.starts_with(base)`, by components.
pub fn starts_with_path(path: &str, base: &str) -> (b: bool)
    ensures
        b == path_starts_with(path@, base@),
{
    let pc = components_chars(&chars_of(path));
    let bc = components_chars(&chars_of(base));
    prefix_comps(&bc, &pc)
}

/// `base.join(p)` (see `join_path`).
pub fn join_path_of(base: &str, p: &str) -> (s: String)
    ensures
        s@ == join_path(base@, p@),
{
    let pv = chars_of(p);
    let bv = chars_of(base);
    let mut s = String::new();
    if pv.len() > 0 && pv[0] == '/' {
        crate::text::push_chars(&mut s, &pv);
        assert(s@ =~= pv@);
        return s;
    }
    crate::text::push_chars(&mut s, &bv);
    if bv.len() > 0 && bv[bv.len() - 1] != '/' {
        push_char(&mut s, '/');
    }
    crate::text::push_chars(&mut s, &pv);
    assert(s@ =~= join_path(base@, p@));
    s
}

/// `p.parent()` (see `parent`).
pub fn parent_of(p: &str) -> (r: Option<String>)
    ensures
        match r {
            Some(s) => parent(p@) == Some(s@),
            None => parent(p@) is None,
        },
{
    let mut cs = components_chars(&chars_of(p));
    let n = cs.len();
    if n == 0 {
        return None;
    }
    let last_is_root = cs[n - 1].len() == 1 && cs[n - 1][0] == '/';
    proof {
        assert(texts(cs@).last() == cs@[n - 1]@);
        if cs@[n - 1]@.len() == 1 && cs@[n - 1]@[0] == '/' {
            assert(cs@[n - 1]@ =~= seq!['/']);
        }
        if cs@[n - 1]@ == seq!['/'] {
            assert(cs@[n - 1]@.len() == 1);
        }
    }
    if last_is_root {
        return None;
    }
    let ghost all = texts(cs@);
    let _ = cs.pop();
    assert(texts(cs@) =~= all.drop_last());
    let s = from_components_exec(&cs, 0, cs.len());
    assert(texts(cs@).subrange(0, cs@.len() as int) =~= texts(cs@));
    Some(s)
}

/// `p.extension()` (see `extension`).
pub fn extension_of(p: &str) -> (r: Option<String>)
    ensures
        match r {
            Some(s) => extension(p@) == Some(s@),
            None => extension(p@) is None,
        },
{
    let cs = components_chars(&chars_of(p));
    let n = cs.len();
    if n == 0 {
        return None;
    }
    let name = &cs[n - 1];
    proof {
        assert(texts(cs@).last() == name@);
    }
    let special = (name.len() == 1 && (name[0] == '/' || name[0] == '.')) || (name.len() == 2
        && name[0] == '.' && name[1] == '.');
    proof {
        if name@.len() == 1 {
            assert(name@ =~= seq![name@[0]]);
        }
        if name@.len() == 2 {
            assert(name@ =~= seq![name@[0], name@[1]]);
        }
        if name@ == seq!['/'] || name@ == seq!['.'] || name@ == seq!['.', '.'] {
            assert(special);
        }
    }
    if special {
        return None;
    }
    assert(file_name(p@) == Some(name@));
    // Find the last dot.
    let mut i = name.len();
    while i > 0 && name[i - 1] != '.'
        invariant
            i <= name@.len(),
            forall|j: int| i <= j < name@.len() ==> name@[j] != '.',
        decreases i,
    {
        i = i - 1;
    }
    proof {
        lemma_last_dot(name@, i - 1);
    }
    if i <= 1 {
        return None;
    }
    let ext = slice_chars(name, i, name.len());
    assert(ext@ =~= name@.skip(i as int));
    Some(string_of(&ext))
}

} // verus!
