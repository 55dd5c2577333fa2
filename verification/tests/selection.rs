//! Selections.
use tttt::selection::Selection;
use tttt::vt100::parser::Parser;

fn make_screen(input: &[u8], cols: u16, rows: u16) -> Parser {
    let mut parser = Parser::new(rows, cols, 0);
    parser.process(input);
    parser
}

#[test]
fn test_new_selection() {
    let sel = Selection::new(5, 10);
    assert_eq!(sel.anchor, (5, 10));
    assert_eq!(sel.head, (5, 10));
}

#[test]
fn test_update_head() {
    let mut sel = Selection::new(5, 10);
    sel.update(7, 15);
    assert_eq!(sel.head, (7, 15));
    assert_eq!(sel.anchor, (5, 10)); // unchanged
}

#[test]
fn test_range_forward() {
    let mut sel = Selection::new(2, 5);
    sel.update(4, 10);
    assert_eq!(sel.range(), ((2, 5), (4, 10)));
}

#[test]
fn test_range_backward() {
    let mut sel = Selection::new(4, 10);
    sel.update(2, 5);
    assert_eq!(sel.range(), ((2, 5), (4, 10)));
}

#[test]
fn test_range_same_row_forward() {
    let mut sel = Selection::new(3, 2);
    sel.update(3, 8);
    assert_eq!(sel.range(), ((3, 2), (3, 8)));
}

#[test]
fn test_range_same_row_backward() {
    let mut sel = Selection::new(3, 8);
    sel.update(3, 2);
    assert_eq!(sel.range(), ((3, 2), (3, 8)));
}

#[test]
fn test_contains_single_line() {
    let mut sel = Selection::new(3, 2);
    sel.update(3, 6);
    assert!(sel.contains(3, 2));
    assert!(sel.contains(3, 4));
    assert!(sel.contains(3, 6));
    assert!(!sel.contains(3, 1));
    assert!(!sel.contains(3, 7));
    assert!(!sel.contains(2, 4));
    assert!(!sel.contains(4, 4));
}

#[test]
fn test_contains_multi_line() {
    let mut sel = Selection::new(2, 5);
    sel.update(4, 3);
    // First line: col >= 5
    assert!(sel.contains(2, 5));
    assert!(sel.contains(2, 10));
    assert!(!sel.contains(2, 4));
    // Middle line: any col
    assert!(sel.contains(3, 0));
    assert!(sel.contains(3, 50));
    // Last line: col <= 3
    assert!(sel.contains(4, 0));
    assert!(sel.contains(4, 3));
    assert!(!sel.contains(4, 4));
    // Outside
    assert!(!sel.contains(1, 5));
    assert!(!sel.contains(5, 0));
}

#[test]
fn test_extract_text_single_line() {
    let parser = make_screen(b"Hello World!", 20, 3);
    let mut sel = Selection::new(0, 0);
    sel.update(0, 4);
    assert_eq!(sel.extract_text(parser.screen()), "Hello");
}

#[test]
fn test_extract_text_multi_line() {
    // Two lines: "Hello" and "World"
    let parser = make_screen(b"Hello\r\nWorld", 20, 3);
    let mut sel = Selection::new(0, 3);
    sel.update(1, 4);
    // First line from col 3 to end: "lo" (trimmed)
    // Last line from 0 to col 4: "World"
    assert_eq!(sel.extract_text(parser.screen()), "lo\nWorld");
}

#[test]
fn test_extract_text_trailing_whitespace_trimmed() {
    let parser = make_screen(b"Hi   ", 10, 2);
    let mut sel = Selection::new(0, 0);
    sel.update(0, 9);
    assert_eq!(sel.extract_text(parser.screen()), "Hi");
}

#[test]
fn test_is_empty() {
    let sel = Selection::new(3, 5);
    assert!(sel.is_empty());
    let mut sel2 = Selection::new(3, 5);
    sel2.update(3, 6);
    assert!(!sel2.is_empty());
}

#[test]
fn test_extract_text_empty_selection() {
    let parser = make_screen(b"Hello", 20, 3);
    let sel = Selection::new(0, 2);
    // Single cell selection
    assert_eq!(sel.extract_text(parser.screen()), "l");
}

#[test]
fn test_extract_text_wide_char() {
    // "Hello中World": H(0)e(1)l(2)l(3)o(4)中(5,6)W(7)o(8)r(9)l(10)d(11)
    // 中 is a wide char occupying cols 5 and 6 (continuation)
    // "World" ends at col 11, so select 0..=11 to capture all
    let parser = make_screen("Hello中World".as_bytes(), 20, 3);
    let mut sel = Selection::new(0, 0);
    sel.update(0, 11);
    let text = sel.extract_text(parser.screen());
    assert!(text.contains("Hello"));
    assert!(text.contains("中"));
    assert!(text.contains("World"));
}
