use baraddur::config::discovery::{
    ancestors, global_path, global_path_under, locate_config, not_found_message, walk_decide, walk_up,
    WalkResult,
    CONFIG_FILENAME, GLOBAL_RELATIVE,
};
use baraddur::config::ConfigSource;

#[test]
fn returns_none_when_not_in_tempdir_tree() {
    let start = "/tmp/baraddur-discovery-no-such-dir/a/b";
    let result = walk_up(start);
    if let Some(p) = &result.found {
        assert!(!p.starts_with("/tmp/baraddur-discovery-no-such-dir"));
    }
    assert_eq!(result.searched[0], start);
    assert_eq!(result.searched[1], "/tmp/baraddur-discovery-no-such-dir/a");
    assert_eq!(result.searched[2], "/tmp/baraddur-discovery-no-such-dir");
}

#[test]
fn walk_up_searches_every_parent_up_to_root() {
    let result = walk_up("/baraddur-no-such-root-dir/x/y");
    assert!(result.found.is_none());
    assert_eq!(
        result.searched,
        vec![
            "/baraddur-no-such-root-dir/x/y".to_string(),
            "/baraddur-no-such-root-dir/x".to_string(),
            "/baraddur-no-such-root-dir".to_string(),
            "/".to_string(),
        ]
    );
}

#[test]
fn walk_up_relative_path_ends_at_empty_path() {
    let result = walk_up("baraddur-no-such-rel-dir/q");
    assert!(result.found.is_none());
    assert_eq!(
        result.searched,
        vec![
            "baraddur-no-such-rel-dir/q".to_string(),
            "baraddur-no-such-rel-dir".to_string(),
            String::new(),
        ]
    );
}

#[test]
fn global_path_points_inside_home() {
    let p = global_path().expect("HOME should resolve in test environment");
    assert!(p.contains(".config/baraddur/config.toml"), "unexpected global path: {p}");
}

#[test]
fn global_path_under_joins_relative_part() {
    assert_eq!(global_path_under("/home/u"), "/home/u/.config/baraddur/config.toml");
    assert_eq!(GLOBAL_RELATIVE, ".config/baraddur/config.toml");
    assert_eq!(CONFIG_FILENAME, ".baraddur.toml");
}

const EXAMPLE: &str = "\n\ncreate a .baraddur.toml in your project root. minimal example:\n\n  [watch]\n  extensions = [\"rs\"]\n\n  [[steps]]\n  name = \"check\"\n  cmd  = \"cargo check\"";

#[test]
fn not_found_message_shortens_global_path_under_home() {
    let searched = vec!["/w/p".to_string(), "/w".to_string(), "/".to_string()];
    let msg = not_found_message(
        &searched,
        Some("/home/u/.config/baraddur/config.toml"),
        Some("/home/u"),
    );
    let expected = format!(
        "no .baraddur.toml found in this directory or any parent,\n          and no ~/.config/baraddur/config.toml.{EXAMPLE}\n\n(searched:\n  /w/p\n  /w\n  /)"
    );
    assert_eq!(msg, expected);
}

#[test]
fn not_found_message_without_global_or_searched() {
    let msg = not_found_message(&[], None, None);
    assert_eq!(
        msg,
        format!("no .baraddur.toml found in this directory or any parent.{EXAMPLE}")
    );
}

#[test]
fn not_found_message_keeps_global_outside_home() {
    let msg = not_found_message(&[], Some("/etc/b.toml"), Some("/home/u"));
    assert!(msg.starts_with(
        "no .baraddur.toml found in this directory or any parent,\n          and no /etc/b.toml."
    ));
}

#[test]
fn locate_config_follows_resolution_order() {
    let walk_found = WalkResult {
        found: Some("/p/.baraddur.toml".to_string()),
        searched: vec!["/p".to_string()],
    };
    let walk_none = WalkResult { found: None, searched: vec!["/p".to_string()] };

    let r = locate_config(Some("/x.toml"), &walk_found, Some("/g.toml"), true).unwrap();
    assert_eq!(r, ("/x.toml".to_string(), ConfigSource::CliOverride));

    let r = locate_config(None, &walk_found, Some("/g.toml"), true).unwrap();
    assert_eq!(r, ("/p/.baraddur.toml".to_string(), ConfigSource::WalkUp));

    let r = locate_config(None, &walk_none, Some("/g.toml"), true).unwrap();
    assert_eq!(r, ("/g.toml".to_string(), ConfigSource::Global));

    let err = locate_config(None, &walk_none, Some("/g.toml"), false).unwrap_err();
    assert!(err.starts_with("no .baraddur.toml found"));
    assert!(err.ends_with("(searched:\n  /p)"));

    let err = locate_config(None, &walk_none, None, false).unwrap_err();
    assert!(err.starts_with("no .baraddur.toml found in this directory or any parent.\n"));
}

#[test]
fn walk_decide_stops_at_first_directory_with_the_file() {
    let dirs = vec!["/a/b".to_string(), "/a".to_string(), "/".to_string()];
    let r = walk_decide(&dirs, &[false, true, true]);
    assert_eq!(r.found.as_deref(), Some("/a/.baraddur.toml"));
    assert_eq!(r.searched, vec!["/a/b".to_string(), "/a".to_string()]);

    let none = walk_decide(&dirs, &[false, false, false]);
    assert!(none.found.is_none());
    assert_eq!(none.searched, dirs);

    let first = walk_decide(&dirs, &[true, false, false]);
    assert_eq!(first.found.as_deref(), Some("/a/b/.baraddur.toml"));
    assert_eq!(first.searched, vec!["/a/b".to_string()]);
}

#[test]
fn ancestors_lists_start_then_parents() {
    assert_eq!(
        ancestors("/x/y"),
        vec!["/x/y".to_string(), "/x".to_string(), "/".to_string()]
    );
}
