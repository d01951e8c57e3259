//! What the library makes of git's answers for `check --staged` /
//! `check --since`: the NUL-separated path lists git prints, and the
//! rebasing of those repository-relative paths onto the project root.
use vstd::prelude::*;

use crate::config::schema::strings_view;
use crate::path::{
    components, from_components, join_path, join_path_of, normal_parts, piece_len, starts_with_cur_dir,
    strip_prefix, strip_prefix_of,
};
use crate::text::join;
use crate::text::{chars_of, string_of};

verus! {

// ── Specification ───────────────────────────────────────────────────────────

/// Length of the leading run of `s` before the first NUL.
pub open spec fn chunk_len(s: Seq<u8>) -> nat
    decreases s.len(),
{
    if s.len() == 0 || s[0] == 0 {
        0
    } else {
        1 + chunk_len(s.drop_first())
    }
}

/// The NUL-separated chunks of `s`, without the empty ones.
pub open spec fn nul_chunks(s: Seq<u8>) -> Seq<Seq<u8>>
    decreases s.len(),
{
    if s.len() == 0 {
        seq![]
    } else {
        let k = chunk_len(s);
        let head: Seq<Seq<u8>> = if k > 0 {
            seq![s.take(k as int)]
        } else {
            seq![]
        };
        if k < s.len() {
            head + nul_chunks(s.skip(k as int + 1))
        } else {
            head
        }
    }
}

/// A list of byte strings by their contents.
pub open spec fn byte_paths_view(v: Seq<Vec<u8>>) -> Seq<Seq<u8>> {
    v.map_values(|b: Vec<u8>| b@)
}

/// The byte `b` as the character with the same number (U+0000 to U+00FF).
/// This is one to one, and maps `/` and `.` to themselves, so path
/// components read from the characters are those of the bytes.
pub open spec fn byte_char(b: u8) -> char {
    (b as u32) as char
}

/// Bytes read as characters, one for one (see `byte_char`).
pub open spec fn latin1(s: Seq<u8>) -> Seq<char> {
    s.map_values(|b: u8| byte_char(b))
}

/// Characters written back as the bytes they stand for (each number taken
/// modulo 256).
pub open spec fn char_bytes(s: Seq<char>) -> Seq<u8> {
    s.map_values(|c: char| (c as u32) as u8)
}

/// `git_paths` (raw bytes, relative to `repo`) made relative to `app_root`,
/// without those that lie outside it; path components are compared byte
/// for byte.
pub open spec fn rebased_bytes(repo: Seq<u8>, app_root: Seq<u8>, git_paths: Seq<Seq<u8>>) -> Seq<
    Seq<u8>,
> {
    rebased(latin1(repo), latin1(app_root), git_paths.map_values(|p: Seq<u8>| latin1(p))).map_values(
        |p: Seq<char>| char_bytes(p),
    )
}

/// `git_paths` (relative to `repo`) made relative to `app_root`, without
/// those that lie outside it.
pub open spec fn rebased(repo: Seq<char>, app_root: Seq<char>, git_paths: Seq<Seq<char>>) -> Seq<
    Seq<char>,
>
    decreases git_paths.len(),
{
    if git_paths.len() == 0 {
        seq![]
    } else {
        let rest = rebased(repo, app_root, git_paths.drop_last());
        match strip_prefix(join_path(repo, git_paths.last()), app_root) {
            Some(r) => rest.push(r),
            None => rest,
        }
    }
}

// ── Lemmas ──────────────────────────────────────────────────────────────────

proof fn lemma_chunk_len(t: Seq<u8>, k: int)
    requires
        0 <= k <= t.len(),
        forall|j: int| 0 <= j < k ==> t[j] != 0,
        k == t.len() || t[k] == 0,
    ensures
        chunk_len(t) == k,
    decreases k,
{
    if k > 0 {
        lemma_chunk_len(t.drop_first(), k - 1);
    }
}

proof fn lemma_chunk_len_bounds(t: Seq<u8>)
    ensures
        chunk_len(t) <= t.len(),
        forall|j: int| 0 <= j < chunk_len(t) ==> t[j] != 0,
        chunk_len(t) < t.len() ==> t[chunk_len(t) as int] == 0,
    decreases t.len(),
{
    if t.len() > 0 && t[0] != 0 {
        lemma_chunk_len_bounds(t.drop_first());
        assert forall|j: int| 0 <= j < chunk_len(t) implies t[j] != 0 by {
            if j > 0 {
                assert(t[j] == t.drop_first()[j - 1]);
            }
        }
    }
}

/// Every path git's output yields is a non-empty run of bytes without a
/// NUL.
pub proof fn law_nul_chunks_are_names(s: Seq<u8>)
    ensures
        forall|i: int|
            0 <= i < nul_chunks(s).len() ==> #[trigger] nul_chunks(s)[i].len() > 0 && !nul_chunks(
                s,
            )[i].contains(0u8),
    decreases s.len(),
{
    if s.len() > 0 {
        let k = chunk_len(s);
        lemma_chunk_len_bounds(s);
        let head: Seq<Seq<u8>> = if k > 0 {
            seq![s.take(k as int)]
        } else {
            seq![]
        };
        if k > 0 {
            assert(!s.take(k as int).contains(0u8)) by {
                assert forall|j: int| 0 <= j < k implies s.take(k as int)[j] != 0u8 by {}
            }
        }
        if k < s.len() {
            law_nul_chunks_are_names(s.skip(k as int + 1));
            let tail = nul_chunks(s.skip(k as int + 1));
            assert(nul_chunks(s) == head + tail);
            assert forall|i: int| 0 <= i < nul_chunks(s).len() implies #[trigger] nul_chunks(
                s,
            )[i].len() > 0 && !nul_chunks(s)[i].contains(0u8) by {
                if i >= head.len() {
                    assert(nul_chunks(s)[i] == tail[i - head.len()]);
                }
            }
        }
    }
}

/// Two outputs joined by a NUL yield the paths of the first, then those of
/// the second: a trailing NUL or a doubled one adds no path.
pub proof fn law_nul_chunks_concat(a: Seq<u8>, b: Seq<u8>)
    ensures
        nul_chunks(a + seq![0u8] + b) == nul_chunks(a) + nul_chunks(b),
    decreases a.len(),
{
    let s = a + seq![0u8] + b;
    lemma_chunk_len_bounds(s);
    lemma_chunk_len_bounds(a);
    let ka: int = chunk_len(a) as int;
    // The first chunk of `s` is the first chunk of `a`.
    assert forall|j: int| 0 <= j < ka implies s[j] != 0 by {
        assert(s[j] == a[j]);
    }
    if ka < a.len() {
        assert(s[ka] == a[ka]);
    } else {
        assert(s[ka] == 0u8);
    }
    lemma_chunk_len(s, ka);
    assert(s.take(ka as int) =~= a.take(ka as int));
    if ka < a.len() {
        let a2 = a.skip(ka as int + 1);
        assert(s.skip(ka as int + 1) =~= a2 + seq![0u8] + b);
        law_nul_chunks_concat(a2, b);
        if ka > 0 {
            assert(nul_chunks(s) =~= nul_chunks(a) + nul_chunks(b));
        } else {
            assert(nul_chunks(s) =~= nul_chunks(a) + nul_chunks(b));
        }
    } else {
        assert(s.skip(ka as int + 1) =~= b);
        if a.len() == 0 {
            assert(nul_chunks(a) =~= Seq::<Seq<u8>>::empty());
        }
        assert(nul_chunks(s) =~= nul_chunks(a) + nul_chunks(b));
    }
}

// ── Bytes and characters ────────────────────────────────────────────────────

/// Every character of `s` stands for a byte (U+0000 to U+00FF).
pub open spec fn narrow(s: Seq<char>) -> bool {
    forall|i: int| 0 <= i < s.len() ==> (#[trigger] s[i] as u32) < 256
}

proof fn lemma_latin1_narrow(b: Seq<u8>)
    ensures
        narrow(latin1(b)),
        char_bytes(latin1(b)) == b,
{
    assert forall|i: int| 0 <= i < latin1(b).len() implies (#[trigger] latin1(b)[i] as u32) < 256 by {
        let x = b[i];
        assert(latin1(b)[i] == byte_char(x));
    }
    assert forall|i: int| 0 <= i < b.len() implies char_bytes(latin1(b))[i] == b[i] by {
        let x = b[i];
        assert(((x as u32) as char) as u32 == x as u32);
    }
    assert(char_bytes(latin1(b)) =~= b);
}

proof fn lemma_narrow_round_trip(s: Seq<char>)
    requires
        narrow(s),
    ensures
        latin1(char_bytes(s)) == s,
{
    assert forall|i: int| 0 <= i < s.len() implies latin1(char_bytes(s))[i] == s[i] by {
        let c = s[i];
        assert((c as u32) < 256);
        let x = (c as u32) as u8;
        assert(x as u32 == c as u32);
        vstd::utf8::char_u32_cast(c, x as u32);
        assert(byte_char(x) == c);
    }
    assert(latin1(char_bytes(s)) =~= s);
}

proof fn lemma_normal_parts_narrow(s: Seq<char>)
    requires
        narrow(s),
    ensures
        forall|i: int| 0 <= i < normal_parts(s).len() ==> narrow(#[trigger] normal_parts(s)[i]),
    decreases s.len(),
{
    if s.len() > 0 {
        let k = piece_len(s);
        lemma_piece_len_bound(s);
        let piece = s.take(k as int);
        assert(narrow(piece)) by {
            assert forall|i: int| 0 <= i < piece.len() implies (#[trigger] piece[i] as u32) < 256 by {
                assert(piece[i] == s[i]);
            }
        }
        let head: Seq<Seq<char>> = if piece.len() > 0 && piece != seq!['.'] {
            seq![piece]
        } else {
            seq![]
        };
        if k < s.len() {
            let rest = s.skip(k as int + 1);
            assert(narrow(rest)) by {
                assert forall|i: int| 0 <= i < rest.len() implies (#[trigger] rest[i] as u32) < 256 by {
                    assert(rest[i] == s[i + k + 1]);
                }
            }
            lemma_normal_parts_narrow(rest);
            let all = head + normal_parts(rest);
            assert(normal_parts(s) == all);
            assert forall|i: int| 0 <= i < all.len() implies narrow(#[trigger] all[i]) by {
                if i >= head.len() {
                    assert(all[i] == normal_parts(rest)[i - head.len()]);
                }
            }
        } else {
            assert(normal_parts(s) == head);
        }
    }
}

proof fn lemma_piece_len_bound(s: Seq<char>)
    ensures
        piece_len(s) <= s.len(),
    decreases s.len(),
{
    if s.len() > 0 && s[0] != '/' {
        lemma_piece_len_bound(s.drop_first());
    }
}

proof fn lemma_components_narrow(p: Seq<char>)
    requires
        narrow(p),
    ensures
        forall|i: int| 0 <= i < components(p).len() ==> narrow(#[trigger] components(p)[i]),
{
    let t = p.drop_first();
    if p.len() > 0 {
        assert(narrow(t)) by {
            assert forall|i: int| 0 <= i < t.len() implies (#[trigger] t[i] as u32) < 256 by {
                assert(t[i] == p[i + 1]);
            }
        }
    }
    if p.len() > 0 && (p[0] == '/' || starts_with_cur_dir(p)) {
        lemma_normal_parts_narrow(t);
        let first: Seq<char> = if p[0] == '/' {
            seq!['/']
        } else {
            seq!['.']
        };
        assert(narrow(first));
        let all = seq![first] + normal_parts(t);
        assert(components(p) == all);
        assert forall|i: int| 0 <= i < all.len() implies narrow(#[trigger] all[i]) by {
            if i >= 1 {
                assert(all[i] == normal_parts(t)[i - 1]);
            }
        }
    } else {
        lemma_normal_parts_narrow(p);
    }
}

proof fn lemma_concat_narrow(a: Seq<char>, b: Seq<char>)
    requires
        narrow(a),
        narrow(b),
    ensures
        narrow(a + b),
{
    assert forall|i: int| 0 <= i < (a + b).len() implies (#[trigger] (a + b)[i] as u32) < 256 by {
        if i < a.len() {
            assert((a + b)[i] == a[i]);
        } else {
            assert((a + b)[i] == b[i - a.len()]);
        }
    }
}

proof fn lemma_join_narrow(cs: Seq<Seq<char>>)
    requires
        forall|i: int| 0 <= i < cs.len() ==> narrow(#[trigger] cs[i]),
    ensures
        narrow(join(cs, seq!['/'])),
    decreases cs.len(),
{
    if cs.len() > 1 {
        let init = cs.drop_last();
        assert forall|i: int| 0 <= i < init.len() implies narrow(#[trigger] init[i]) by {
            assert(init[i] == cs[i]);
        }
        lemma_join_narrow(init);
        assert(narrow(seq!['/']));
        lemma_concat_narrow(join(init, seq!['/']), seq!['/']);
        assert(narrow(cs.last())) by {
            assert(cs.last() == cs[cs.len() - 1]);
        }
        lemma_concat_narrow(join(init, seq!['/']) + seq!['/'], cs.last());
    } else if cs.len() == 1 {
        assert(narrow(cs[0]));
    }
}

proof fn lemma_from_components_narrow(cs: Seq<Seq<char>>)
    requires
        forall|i: int| 0 <= i < cs.len() ==> narrow(#[trigger] cs[i]),
    ensures
        narrow(from_components(cs)),
{
    if cs.len() > 0 && cs[0] == seq!['/'] {
        let rest = cs.drop_first();
        assert forall|i: int| 0 <= i < rest.len() implies narrow(#[trigger] rest[i]) by {
            assert(rest[i] == cs[i + 1]);
        }
        lemma_join_narrow(rest);
        assert(narrow(seq!['/']));
        lemma_concat_narrow(seq!['/'], join(rest, seq!['/']));
    } else {
        lemma_join_narrow(cs);
    }
}

proof fn lemma_rebased_narrow(repo: Seq<char>, root: Seq<char>, paths: Seq<Seq<char>>)
    requires
        narrow(repo),
        forall|i: int| 0 <= i < paths.len() ==> narrow(#[trigger] paths[i]),
    ensures
        forall|i: int|
            0 <= i < rebased(repo, root, paths).len() ==> narrow(#[trigger] rebased(repo, root, paths)[i]),
    decreases paths.len(),
{
    if paths.len() > 0 {
        let init = paths.drop_last();
        assert forall|i: int| 0 <= i < init.len() implies narrow(#[trigger] init[i]) by {
            assert(init[i] == paths[i]);
        }
        lemma_rebased_narrow(repo, root, init);
        let last = paths.last();
        assert(narrow(last)) by {
            assert(last == paths[paths.len() - 1]);
        }
        let abs = join_path(repo, last);
        assert(narrow(abs)) by {
            assert(narrow(seq!['/']));
            if !(last.len() > 0 && last[0] == '/') {
                if repo.len() > 0 && repo.last() != '/' {
                    lemma_concat_narrow(repo, seq!['/']);
                    lemma_concat_narrow(repo + seq!['/'], last);
                } else {
                    lemma_concat_narrow(repo, last);
                }
            }
        }
        let rest = rebased(repo, root, init);
        match strip_prefix(abs, root) {
            Some(r) => {
                lemma_components_narrow(abs);
                let cs = components(abs).skip(components(root).len() as int);
                assert forall|i: int| 0 <= i < cs.len() implies narrow(#[trigger] cs[i]) by {
                    assert(cs[i] == components(abs)[i + components(root).len()]);
                }
                lemma_from_components_narrow(cs);
                let out = rest.push(r);
                assert forall|i: int| 0 <= i < out.len() implies narrow(#[trigger] out[i]) by {
                    if i < rest.len() {
                        assert(out[i] == rest[i]);
                    }
                }
            },
            None => {},
        }
    }
}

/// Rebasing keeps every byte: the byte paths it returns, read back as
/// characters one per byte, are exactly the paths that rebasing the
/// characters gives; no character is cut down to a byte on the way.
pub proof fn law_rebase_keeps_bytes(repo: Seq<u8>, app_root: Seq<u8>, git_paths: Seq<Seq<u8>>)
    ensures
        rebased_bytes(repo, app_root, git_paths).map_values(|p: Seq<u8>| latin1(p)) == rebased(
            latin1(repo),
            latin1(app_root),
            git_paths.map_values(|p: Seq<u8>| latin1(p)),
        ),
{
    let ps = git_paths.map_values(|p: Seq<u8>| latin1(p));
    lemma_latin1_narrow(repo);
    assert forall|i: int| 0 <= i < ps.len() implies narrow(#[trigger] ps[i]) by {
        lemma_latin1_narrow(git_paths[i]);
    }
    let r = rebased(latin1(repo), latin1(app_root), ps);
    lemma_rebased_narrow(latin1(repo), latin1(app_root), ps);
    let back = rebased_bytes(repo, app_root, git_paths).map_values(|p: Seq<u8>| latin1(p));
    assert forall|i: int| 0 <= i < r.len() implies back[i] == r[i] by {
        lemma_narrow_round_trip(r[i]);
    }
    assert(back =~= r);
}

// ── Executable operations ───────────────────────────────────────────────────

/// A path named by raw bytes, kept as those bytes (on Unix a path is any
/// byte string without NUL).
pub fn bytes_to_pathbuf(b: &[u8]) -> (p: Vec<u8>)
    ensures
        p@ == b@,
{
    let mut p: Vec<u8> = Vec::new();
    let mut i: usize = 0;
    while i < b.len()
        invariant
            i <= b@.len(),
            p@ == b@.take(i as int),
        decreases b.len() - i,
    {
        p.push(b[i]);
        i = i + 1;
        assert(p@ =~= b@.take(i as int));
    }
    assert(b@.take(i as int) =~= b@);
    p
}

/// Splits NUL-separated git output into path entries, each kept as its raw
/// bytes. Empty chunks are dropped so a trailing NUL or two concatenated
/// outputs don't produce phantom paths.
pub fn parse_nul(bytes: &[u8]) -> (out: Vec<Vec<u8>>)
    ensures
        byte_paths_view(out@) == nul_chunks(bytes@),
{
    let mut out: Vec<Vec<u8>> = Vec::new();
    let mut start: usize = 0;
    let mut i: usize = 0;
    assert(bytes@.skip(0) =~= bytes@);
    while i < bytes.len()
        invariant
            start <= i <= bytes@.len(),
            forall|j: int| start <= j < i ==> bytes@[j] != 0,
            byte_paths_view(out@) + nul_chunks(bytes@.skip(start as int)) == nul_chunks(bytes@),
        decreases bytes.len() - i,
    {
        if bytes[i] == 0 {
            let ghost t = bytes@.skip(start as int);
            proof {
                lemma_chunk_len(t, i - start);
                assert(t.take(i - start) =~= bytes@.subrange(start as int, i as int));
                assert(t.skip(i - start + 1) =~= bytes@.skip(i + 1));
            }
            let ghost before = byte_paths_view(out@);
            if i > start {
                let p = bytes_to_pathbuf(&bytes[start..i]);
                out.push(p);
                assert(byte_paths_view(out@) =~= before.push(p@));
                assert(nul_chunks(t) =~= seq![p@] + nul_chunks(bytes@.skip(i + 1)));
            } else {
                assert(nul_chunks(t) =~= nul_chunks(bytes@.skip(i + 1)));
            }
            assert(byte_paths_view(out@) + nul_chunks(bytes@.skip(i + 1)) =~= before + nul_chunks(t));
            start = i + 1;
        }
        i = i + 1;
    }
    let ghost t = bytes@.skip(start as int);
    let ghost before = byte_paths_view(out@);
    if start < bytes.len() {
        proof {
            lemma_chunk_len(t, bytes.len() - start);
            assert(t.take(bytes.len() - start) =~= t);
        }
        let p = bytes_to_pathbuf(&bytes[start..bytes.len()]);
        assert(bytes@.subrange(start as int, bytes@.len() as int) =~= t);
        out.push(p);
        assert(nul_chunks(t) =~= seq![p@]);
        assert(byte_paths_view(out@) =~= before + nul_chunks(t));
    } else {
        assert(nul_chunks(t) =~= Seq::<Seq<u8>>::empty());
        assert(byte_paths_view(out@) =~= before + nul_chunks(t));
    }
    out
}

/// The bytes as text, one character per byte (see `latin1`).
fn latin1_text(b: &[u8]) -> (s: String)
    ensures
        s@ == latin1(b@),
{
    let mut v: Vec<char> = Vec::new();
    let mut i: usize = 0;
    while i < b.len()
        invariant
            i <= b@.len(),
            v@ == latin1(b@.take(i as int)),
        decreases b.len() - i,
    {
        let c = b[i] as char;
        v.push(c);
        i = i + 1;
        assert(latin1(b@.take(i as int)) =~= latin1(b@.take(i - 1)).push(byte_char(b@[i - 1])));
    }
    assert(b@.take(i as int) =~= b@);
    string_of(&v)
}

/// The text written back as bytes (see `char_bytes`).
fn text_bytes(s: &str) -> (b: Vec<u8>)
    ensures
        b@ == char_bytes(s@),
{
    let v = chars_of(s);
    let mut b: Vec<u8> = Vec::new();
    let mut i: usize = 0;
    while i < v.len()
        invariant
            i <= v@.len(),
            v@ == s@,
            b@ == char_bytes(v@.take(i as int)),
        decreases v.len() - i,
    {
        let x = (v[i] as u32) as u8;
        b.push(x);
        i = i + 1;
        assert(char_bytes(v@.take(i as int)) =~= char_bytes(v@.take(i - 1)).push(x));
    }
    assert(v@.take(i as int) =~= v@);
    b
}

/// Rebases `git_paths` (raw bytes, relative to `repo`) so they become
/// relative to `app_root`. Paths outside `app_root` are dropped — they
/// can't match a step glob anyway.
pub fn rebase_for_app(repo: &[u8], app_root: &[u8], git_paths: &[Vec<u8>]) -> (out: Vec<Vec<u8>>)
    ensures
        byte_paths_view(out@) == rebased_bytes(repo@, app_root@, byte_paths_view(git_paths@)),
{
    let repo_text = latin1_text(repo);
    let root_text = latin1_text(app_root);
    let ghost all = byte_paths_view(git_paths@).map_values(|p: Seq<u8>| latin1(p));
    let mut texts: Vec<String> = Vec::new();
    let mut i: usize = 0;
    while i < git_paths.len()
        invariant
            i <= git_paths@.len(),
            all == byte_paths_view(git_paths@).map_values(|p: Seq<u8>| latin1(p)),
            strings_view(texts@) == all.take(i as int),
        decreases git_paths.len() - i,
    {
        let t = latin1_text(git_paths[i].as_slice());
        let ghost before = strings_view(texts@);
        proof {
            assert(byte_paths_view(git_paths@)[i as int] == git_paths@[i as int]@);
            assert(all[i as int] == t@);
            assert(all.take(i + 1) =~= all.take(i as int).push(all[i as int]));
        }
        texts.push(t);
        assert(strings_view(texts@) =~= before.push(t@));
        i = i + 1;
    }
    assert(all.take(i as int) =~= all);
    let rebased_text = rebase_text(repo_text.as_str(), root_text.as_str(), texts.as_slice());
    let ghost rv = strings_view(rebased_text@);
    let mut out: Vec<Vec<u8>> = Vec::new();
    let mut j: usize = 0;
    while j < rebased_text.len()
        invariant
            j <= rebased_text@.len(),
            rv == strings_view(rebased_text@),
            byte_paths_view(out@) == rv.take(j as int).map_values(|p: Seq<char>| char_bytes(p)),
        decreases rebased_text.len() - j,
    {
        let b = text_bytes(rebased_text[j].as_str());
        let ghost before = byte_paths_view(out@);
        proof {
            assert(rv[j as int] == rebased_text@[j as int]@);
            assert(rv.take(j + 1) =~= rv.take(j as int).push(rv[j as int]));
            assert(rv.take(j + 1).map_values(|p: Seq<char>| char_bytes(p)) =~= rv.take(j as int).map_values(
                |p: Seq<char>| char_bytes(p),
            ).push(char_bytes(rv[j as int])));
        }
        out.push(b);
        assert(byte_paths_view(out@) =~= before.push(b@));
        j = j + 1;
    }
    assert(rv.take(j as int) =~= rv);
    out
}

/// Rebases paths given as text (see `rebased`).
fn rebase_text(repo: &str, app_root: &str, git_paths: &[String]) -> (out: Vec<String>)
    ensures
        strings_view(out@) == rebased(repo@, app_root@, strings_view(git_paths@)),
{
    let ghost all = strings_view(git_paths@);
    let mut out: Vec<String> = Vec::new();
    let mut i: usize = 0;
    assert(all.take(0) =~= Seq::<Seq<char>>::empty());
    while i < git_paths.len()
        invariant
            i <= git_paths@.len(),
            all == strings_view(git_paths@),
            strings_view(out@) == rebased(repo@, app_root@, all.take(i as int)),
        decreases git_paths.len() - i,
    {
        let abs = join_path_of(repo, git_paths[i].as_str());
        let ghost before = strings_view(out@);
        proof {
            assert(all.take(i + 1).drop_last() =~= all.take(i as int));
            assert(all.take(i + 1).last() == git_paths@[i as int]@);
        }
        match strip_prefix_of(abs.as_str(), app_root) {
            Some(r) => {
                out.push(r);
                assert(strings_view(out@) =~= before.push(r@));
            },
            None => {},
        }
        i = i + 1;
    }
    assert(all.take(i as int) =~= all);
    out
}

} // verus!
