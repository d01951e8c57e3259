use baraddur::watcher::{
    absorb_paths, is_mutation, matches_filters, ChangeKind, DebounceAction, DebounceEvent, Debouncer,
    WatchConfig,
};
use std::time::Duration;

fn cfg_with_root(root: &str, exts: &[&str], ignore: &[&str]) -> WatchConfig {
    WatchConfig {
        root: root.to_string(),
        debounce: Duration::from_millis(1000),
        extensions: exts.iter().map(|s| (*s).into()).collect(),
        ignore: ignore.iter().map(|s| (*s).into()).collect(),
    }
}

fn cfg(exts: &[&str], ignore: &[&str]) -> WatchConfig {
    cfg_with_root(".", exts, ignore)
}

#[test]
fn matches_wanted_extension() {
    assert!(matches_filters("src/foo.rs", &cfg(&["rs"], &[])));
}

#[test]
fn rejects_unwanted_extension() {
    assert!(!matches_filters("README.md", &cfg(&["rs"], &[])));
}

#[test]
fn rejects_ignored_dir() {
    assert!(!matches_filters("target/debug/foo.rs", &cfg(&["rs"], &["target"])));
}

#[test]
fn empty_extensions_matches_all() {
    assert!(matches_filters("anything", &cfg(&[], &[])));
}

#[test]
fn ignores_dir_anywhere_in_path() {
    assert!(!matches_filters("a/b/_build/c/foo.ex", &cfg(&["ex"], &["_build"])));
}

#[test]
fn path_style_ignore_rejects_specific_file() {
    let c = cfg_with_root("/project", &["ex"], &["lib/tss_web/storybook.ex"]);
    assert!(!matches_filters("/project/lib/tss_web/storybook.ex", &c));
}

#[test]
fn path_style_ignore_allows_sibling_file() {
    let c = cfg_with_root("/project", &["ex"], &["lib/tss_web/storybook.ex"]);
    assert!(matches_filters("/project/lib/tss_web/other.ex", &c));
}

#[test]
fn path_style_ignore_rejects_subtree() {
    let c = cfg_with_root("/project", &["ex"], &["lib/generated"]);
    assert!(!matches_filters("/project/lib/generated/foo.ex", &c));
}

#[test]
fn file_without_extension_is_rejected_when_extensions_listed() {
    assert!(!matches_filters("Makefile", &cfg(&["rs"], &[])));
    assert!(!matches_filters(".bashrc", &cfg(&["bashrc"], &[])));
}

#[test]
fn access_events_are_not_mutations() {
    assert!(!is_mutation(&ChangeKind::Access));
}

#[test]
fn writes_creates_and_fallback_kinds_are_mutations() {
    assert!(is_mutation(&ChangeKind::Modify));
    assert!(is_mutation(&ChangeKind::Create));
    assert!(is_mutation(&ChangeKind::Remove));
    assert!(is_mutation(&ChangeKind::Any));
    assert!(is_mutation(&ChangeKind::Other));
}

#[test]
fn absorb_filters_and_dedups_paths() {
    let c = cfg(&["rs"], &["target"]);
    let mut pending = vec!["src/a.rs".to_string()];
    absorb_paths(
        &mut pending,
        vec![
            "src/a.rs".to_string(),
            "src/b.rs".to_string(),
            "README.md".to_string(),
            "target/x.rs".to_string(),
            "src/b.rs".to_string(),
        ],
        &c,
    );
    assert_eq!(pending, vec!["src/a.rs".to_string(), "src/b.rs".to_string()]);
}

#[test]
fn debouncer_batches_mutations_and_flushes_on_quiet() {
    let c = cfg(&["rs"], &[]);
    let mut d = Debouncer::new();
    assert!(!d.waits_with_timeout());
    assert!(matches!(d.step(DebounceEvent::Quiet, &c), DebounceAction::Wait));

    let read = DebounceEvent::Change { kind: ChangeKind::Access, paths: vec!["a.rs".into()] };
    assert!(matches!(d.step(read, &c), DebounceAction::Wait));
    assert!(d.pending.is_empty());

    let write = DebounceEvent::Change {
        kind: ChangeKind::Modify,
        paths: vec!["a.rs".into(), "notes.md".into(), "a.rs".into()],
    };
    assert!(matches!(d.step(write, &c), DebounceAction::Wait));
    let again = DebounceEvent::Change { kind: ChangeKind::Create, paths: vec!["b.rs".into()] };
    d.step(again, &c);
    assert!(d.waits_with_timeout());

    match d.step(DebounceEvent::Quiet, &c) {
        DebounceAction::Flush(batch) => assert_eq!(batch, vec!["a.rs".to_string(), "b.rs".to_string()]),
        _ => panic!("expected a flush"),
    }
    assert!(!d.waits_with_timeout());
    assert!(matches!(d.step(DebounceEvent::Closed, &c), DebounceAction::Stop));
}
