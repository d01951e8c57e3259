use baraddur::output::style::{strip_ansi, visible_len, Theme};

#[test]
fn visible_len_plain() {
    assert_eq!(visible_len("hello"), 5);
}

#[test]
fn visible_len_with_ansi() {
    let styled = "\u{1b}[1m\u{1b}[38;5;10m✓\u{1b}[39m\u{1b}[0m";
    assert_eq!(visible_len(styled), 1);
}

#[test]
fn visible_len_empty() {
    assert_eq!(visible_len(""), 0);
}

#[test]
fn strip_ansi_keeps_payload() {
    let s = "\u{1b}[31mred\u{1b}[0m text";
    assert_eq!(strip_ansi(s), "red text");
    assert_eq!(visible_len(s), strip_ansi(s).chars().count());
}

#[test]
fn theme_remembers_color() {
    assert!(Theme::new(true).color_enabled());
    assert!(!Theme::new(false).color_enabled());
}
