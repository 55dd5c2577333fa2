//! Escape sequences.
use tttt::ansi::{clear_screen, clear_to_eol, cursor_goto, set_attribute, Attribute};

#[test]
fn test_cursor_goto() {
    assert_eq!(cursor_goto(1, 1), "\x1b[1;1H");
    assert_eq!(cursor_goto(10, 50), "\x1b[10;50H");
}

#[test]
fn test_clear_to_eol() {
    assert_eq!(clear_to_eol(), "\x1b[K");
}

#[test]
fn test_clear_screen() {
    let s = clear_screen();
    assert!(s.contains("\x1b[2J"));
    assert!(s.contains("\x1b[1;1H"));
}

#[test]
fn test_attribute_reset() {
    assert_eq!(set_attribute(Attribute::Reset), "\x1b[0m");
}

#[test]
fn test_attribute_bold() {
    assert_eq!(set_attribute(Attribute::Bold), "\x1b[1m");
}

#[test]
fn test_attribute_colors() {
    // Black on white
    assert_eq!(
        set_attribute(Attribute::Colors { fg: 30, bg: 47 }),
        "\x1b[30;47m"
    );
}

#[test]
fn test_attribute_fg() {
    assert_eq!(set_attribute(Attribute::Fg(32)), "\x1b[32m");
}
