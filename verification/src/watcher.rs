//! What the file watcher decides: which file-system events count as
//! changes, which changed paths pass the `[watch]` filters, and how a burst
//! of events collapses into one batch of distinct paths.
use vstd::prelude::*;

use crate::config::schema::strings_view;
use crate::path::{
    components, components_of, extension, extension_of, path_starts_with, starts_with_path,
    strip_prefix, strip_prefix_of,
};

verus! {

/// What the watcher watches and how it filters.
pub struct WatchConfig {
    pub root: String,
    pub debounce: std::time::Duration,
    pub extensions: Vec<String>,
    pub ignore: Vec<String>,
}

/// One batch of changed paths.
pub type WatchEvent = Vec<String>;

/// The kind of a file-system event, as the watcher backend reports it.
#[derive(Debug, Clone, Copy, PartialEq, Eq)]
pub enum ChangeKind {
    /// A generic event from a fallback or polling backend.
    Any,
    /// A read or an open: nothing changed.
    Access,
    Create,
    Modify,
    Remove,
    Other,
}

// ── Specification ───────────────────────────────────────────────────────────

/// `path` relative to `root`, or `path` itself when it lies outside.
pub open spec fn relative_to(path: Seq<char>, root: Seq<char>) -> Seq<char> {
    match strip_prefix(path, root) {
        Some(r) => r,
        None => path,
    }
}

/// An ignore entry with a `/` matches by relative path prefix; a plain
/// name matches any component of the path.
pub open spec fn ignored_by(path: Seq<char>, root: Seq<char>, entry: Seq<char>) -> bool {
    if entry.contains('/') {
        path_starts_with(relative_to(path, root), entry)
    } else {
        components(path).contains(entry)
    }
}

pub open spec fn is_ignored(path: Seq<char>, root: Seq<char>, ignore: Seq<Seq<char>>) -> bool {
    exists|i: int| 0 <= i < ignore.len() && #[trigger] ignored_by(path, root, ignore[i])
}

/// No extension list means every extension is wanted.
pub open spec fn wanted_extension(path: Seq<char>, extensions: Seq<Seq<char>>) -> bool {
    extensions.len() == 0 || match extension(path) {
        Some(e) => extensions.contains(e),
        None => false,
    }
}

/// Whether a change to `path` is reported under these filters.
pub open spec fn passes_filters(
    path: Seq<char>,
    root: Seq<char>,
    extensions: Seq<Seq<char>>,
    ignore: Seq<Seq<char>>,
) -> bool {
    !is_ignored(path, root, ignore) && wanted_extension(path, extensions)
}

impl WatchConfig {
    pub open spec fn passes(&self, path: Seq<char>) -> bool {
        passes_filters(path, self.root@, strings_view(self.extensions@), strings_view(self.ignore@))
    }
}

/// `pending` extended by the paths of `incoming` that pass the filters and
/// are not pending yet, in the order they come.
pub open spec fn absorbed(
    cfg: WatchConfig,
    pending: Seq<Seq<char>>,
    incoming: Seq<Seq<char>>,
) -> Seq<Seq<char>>
    decreases incoming.len(),
{
    if incoming.len() == 0 {
        pending
    } else {
        let before = absorbed(cfg, pending, incoming.drop_last());
        let p = incoming.last();
        if cfg.passes(p) && !before.contains(p) {
            before.push(p)
        } else {
            before
        }
    }
}

pub open spec fn distinct(s: Seq<Seq<char>>) -> bool {
    forall|i: int, j: int| 0 <= i < j < s.len() ==> s[i] != s[j]
}

// ── Laws ────────────────────────────────────────────────────────────────────

/// A batch never holds a path twice, and holds only paths that pass the
/// filters: absorbing events keeps both properties.
pub proof fn law_absorb_keeps_batch_distinct(
    cfg: WatchConfig,
    pending: Seq<Seq<char>>,
    incoming: Seq<Seq<char>>,
)
    requires
        distinct(pending),
        forall|i: int| 0 <= i < pending.len() ==> cfg.passes(#[trigger] pending[i]),
    ensures
        distinct(absorbed(cfg, pending, incoming)),
        forall|i: int|
            0 <= i < absorbed(cfg, pending, incoming).len() ==> cfg.passes(
                #[trigger] absorbed(cfg, pending, incoming)[i],
            ),
    decreases incoming.len(),
{
    if incoming.len() > 0 {
        law_absorb_keeps_batch_distinct(cfg, pending, incoming.drop_last());
        let before = absorbed(cfg, pending, incoming.drop_last());
        let p = incoming.last();
        if cfg.passes(p) && !before.contains(p) {
            let after = before.push(p);
            assert forall|i: int, j: int| 0 <= i < j < after.len() implies after[i] != after[j] by {
                if j == before.len() {
                    assert(before[i] == after[i]);
                }
            }
            assert forall|i: int| 0 <= i < after.len() implies cfg.passes(#[trigger] after[i]) by {
                if i < before.len() {
                    assert(after[i] == before[i]);
                }
            }
        }
    }
}

/// Absorbing a path that is already pending changes nothing: many events on
/// one file collapse into one entry.
pub proof fn law_absorb_repeated_path(cfg: WatchConfig, pending: Seq<Seq<char>>, p: Seq<char>)
    requires
        pending.contains(p),
    ensures
        absorbed(cfg, pending, seq![p]) == pending,
{
    assert(seq![p].drop_last() =~= Seq::<Seq<char>>::empty());
    assert(absorbed(cfg, pending, seq![p].drop_last()) == pending);
    assert(seq![p].last() == p);
}

/// The extension filter: with an extension list, an unignored path passes
/// exactly when its extension equals one of the listed extensions (any of
/// them, not only the first); with no list, every unignored path passes;
/// an ignored path never passes.
pub proof fn law_extension_filter(cfg: WatchConfig, path: Seq<char>)
    ensures
        is_ignored(path, cfg.root@, strings_view(cfg.ignore@)) ==> !cfg.passes(path),
        !is_ignored(path, cfg.root@, strings_view(cfg.ignore@)) && cfg.extensions@.len() == 0
            ==> cfg.passes(path),
        !is_ignored(path, cfg.root@, strings_view(cfg.ignore@)) && cfg.extensions@.len() > 0
            ==> (cfg.passes(path) <==> exists|i: int|
            0 <= i < cfg.extensions@.len() && extension(path) == Some(
                #[trigger] cfg.extensions@[i]@,
            )),
{
    let ev = strings_view(cfg.extensions@);
    assert(ev.len() == cfg.extensions@.len());
    match extension(path) {
        Some(e) => {
            if ev.contains(e) {
                let i = choose|i: int| 0 <= i < ev.len() && ev[i] == e;
                assert(cfg.extensions@[i]@ == ev[i]);
            }
            if exists|i: int| 0 <= i < cfg.extensions@.len() && extension(path) == Some(
                #[trigger] cfg.extensions@[i]@,
            ) {
                let i = choose|i: int| 0 <= i < cfg.extensions@.len() && extension(path) == Some(
                    #[trigger] cfg.extensions@[i]@,
                );
                assert(ev[i] == cfg.extensions@[i]@);
            }
        },
        None => {},
    }
}

// ── Executable operations ───────────────────────────────────────────────────

/// Returns `false` for read/open (`Access`) events — those are not changes
/// to rebuild on. Everything else (Create/Modify/Remove, plus the generic
/// `Any`/`Other` that fallback backends emit) counts as a mutation.
pub fn is_mutation(kind: &ChangeKind) -> (b: bool)
    ensures
        b == !(*kind is Access),
{
    match kind {
        ChangeKind::Access => false,
        _ => true,
    }
}

fn contains_slash(s: &str) -> (b: bool)
    ensures
        b == s@.contains('/'),
{
    let v = crate::text::chars_of(s);
    let mut i: usize = 0;
    while i < v.len()
        invariant
            v@ == s@,
            i <= v@.len(),
            forall|j: int| 0 <= j < i ==> v@[j] != '/',
        decreases v.len() - i,
    {
        if v[i] == '/' {
            assert(s@[i as int] == '/');
            return true;
        }
        i = i + 1;
    }
    false
}

fn contains_string(v: &Vec<String>, s: &String) -> (b: bool)
    ensures
        b == strings_view(v@).contains(s@),
{
    let ghost sv = strings_view(v@);
    let mut i: usize = 0;
    while i < v.len()
        invariant
            sv == strings_view(v@),
            i <= v@.len(),
            forall|j: int| 0 <= j < i ==> sv[j] != s@,
        decreases v.len() - i,
    {
        if v[i] == *s {
            assert(sv[i as int] == s@);
            return true;
        }
        i = i + 1;
    }
    false
}

fn ignored_by_entry(path: &str, root: &str, comps: &Vec<String>, entry: &String) -> (b: bool)
    requires
        strings_view(comps@) == components(path@),
    ensures
        b == ignored_by(path@, root@, entry@),
{
    if contains_slash(entry.as_str()) {
        let rel = match strip_prefix_of(path, root) {
            Some(r) => r,
            None => path.to_owned(),
        };
        starts_with_path(rel.as_str(), entry.as_str())
    } else {
        contains_string(comps, entry)
    }
}

/// Whether a change to `path` passes the `[watch]` filters of `cfg`.
pub fn matches_filters(path: &str, cfg: &WatchConfig) -> (b: bool)
    ensures
        b == cfg.passes(path@),
{
    let comps = components_of(path);
    let ghost ig = strings_view(cfg.ignore@);
    let mut i: usize = 0;
    while i < cfg.ignore.len()
        invariant
            i <= cfg.ignore@.len(),
            ig == strings_view(cfg.ignore@),
            strings_view(comps@) == components(path@),
            forall|j: int| 0 <= j < i ==> !ignored_by(path@, cfg.root@, #[trigger] ig[j]),
        decreases cfg.ignore.len() - i,
    {
        if ignored_by_entry(path, cfg.root.as_str(), &comps, &cfg.ignore[i]) {
            assert(ignored_by(path@, cfg.root@, ig[i as int]));
            return false;
        }
        i = i + 1;
    }
    if cfg.extensions.len() == 0 {
        return true;
    }
    match extension_of(path) {
        Some(ext) => contains_string(&cfg.extensions, &ext),
        None => false,
    }
}

/// Adds to the pending batch each path of one mutation event that passes
/// the filters and is not pending yet.
pub fn absorb_paths(pending: &mut Vec<String>, paths: Vec<String>, cfg: &WatchConfig)
    ensures
        strings_view(final(pending)@) == absorbed(
            *cfg,
            strings_view(old(pending)@),
            strings_view(paths@),
        ),
{
    let ghost incoming = strings_view(paths@);
    let ghost start = strings_view(pending@);
    let mut i: usize = 0;
    assert(incoming.take(0) =~= Seq::<Seq<char>>::empty());
    while i < paths.len()
        invariant
            i <= paths@.len(),
            incoming == strings_view(paths@),
            strings_view(pending@) == absorbed(*cfg, start, incoming.take(i as int)),
        decreases paths.len() - i,
    {
        let p = &paths[i];
        proof {
            assert(incoming.take(i + 1).drop_last() =~= incoming.take(i as int));
            assert(incoming.take(i + 1).last() == p@);
        }
        if matches_filters(p.as_str(), cfg) && !contains_string(pending, p) {
            let ghost before = strings_view(pending@);
            pending.push(p.clone());
            assert(strings_view(pending@) =~= before.push(p@));
        }
        i = i + 1;
    }
    assert(incoming.take(i as int) =~= incoming);
}

// ── Debouncing ─────────────────────────────────────────────────────────────

/// What the watcher thread saw while waiting: a file-system event, a quiet
/// gap of the debounce time with nothing new, or the end of the event
/// stream.
pub enum DebounceEvent {
    Change { kind: ChangeKind, paths: Vec<String> },
    Quiet,
    Closed,
}

/// What the watcher thread does next: wait again (blocking while nothing
/// is pending, else for at most the debounce time), send a batch, or stop.
pub enum DebounceAction {
    Wait,
    Flush(WatchEvent),
    Stop,
}

/// The pending batch of the watcher thread.
pub struct Debouncer {
    pub pending: Vec<String>,
}

impl Debouncer {
    /// Nothing pending.
    pub fn new() -> (d: Self)
        ensures
            d.pending@.len() == 0,
    {
        Debouncer { pending: Vec::new() }
    }

    /// Whether the next wait is bounded by the debounce time: only while a
    /// batch is pending.
    pub fn waits_with_timeout(&self) -> (b: bool)
        ensures
            b == (self.pending@.len() > 0),
    {
        self.pending.len() > 0
    }

    /// One step: a mutation adds its filtered paths to the batch (a read or
    /// open is ignored); a quiet gap flushes a pending batch as one event
    /// and empties it; the end of the stream stops the thread.
    pub fn step(&mut self, event: DebounceEvent, cfg: &WatchConfig) -> (action: DebounceAction)
        ensures
            match event {
                DebounceEvent::Change { kind, paths } => {
                    &&& action is Wait
                    &&& strings_view(final(self).pending@) == if kind is Access {
                        strings_view(old(self).pending@)
                    } else {
                        absorbed(*cfg, strings_view(old(self).pending@), strings_view(paths@))
                    }
                },
                DebounceEvent::Quiet => if old(self).pending@.len() > 0 {
                    &&& action matches DebounceAction::Flush(batch) && batch@ == old(self).pending@
                    &&& final(self).pending@.len() == 0
                } else {
                    &&& action is Wait
                    &&& final(self).pending@ == old(self).pending@
                },
                DebounceEvent::Closed => action is Stop && final(self).pending@ == old(self).pending@,
            },
    {
        match event {
            DebounceEvent::Change { kind, paths } => {
                if is_mutation(&kind) {
                    absorb_paths(&mut self.pending, paths, cfg);
                }
                DebounceAction::Wait
            },
            DebounceEvent::Quiet => {
                if self.pending.len() > 0 {
                    let mut batch: Vec<String> = Vec::new();
                    std::mem::swap(&mut batch, &mut self.pending);
                    DebounceAction::Flush(batch)
                } else {
                    DebounceAction::Wait
                }
            },
            DebounceEvent::Closed => DebounceAction::Stop,
        }
    }
}

} // verus!
