//! Key notation.
use tttt::keys::process_special_keys;

#[test]
fn test_plain_text_passthrough() {
    assert_eq!(process_special_keys("hello"), b"hello");
}

#[test]
fn test_ctrl_c() {
    assert_eq!(process_special_keys("^C"), vec![3]);
}

#[test]
fn test_ctrl_a_through_z() {
    for (i, ch) in ('A'..='Z').enumerate() {
        let input = format!("^{}", ch);
        assert_eq!(process_special_keys(&input), vec![(i as u8) + 1]);
    }
}

#[test]
fn test_ctrl_lowercase() {
    assert_eq!(process_special_keys("^c"), vec![3]);
    assert_eq!(process_special_keys("^a"), vec![1]);
}

#[test]
fn test_hex_escape() {
    assert_eq!(process_special_keys("\\x1b"), vec![0x1b]);
    assert_eq!(process_special_keys("\\x03"), vec![0x03]);
    assert_eq!(process_special_keys("\\x7f"), vec![0x7f]);
}

#[test]
fn test_common_escapes() {
    assert_eq!(process_special_keys("\\n"), vec![b'\n']);
    assert_eq!(process_special_keys("\\r"), vec![b'\r']);
    assert_eq!(process_special_keys("\\t"), vec![b'\t']);
}

#[test]
fn test_arrow_keys() {
    assert_eq!(process_special_keys("[UP]"), b"\x1b[A");
    assert_eq!(process_special_keys("[DOWN]"), b"\x1b[B");
    assert_eq!(process_special_keys("[LEFT]"), b"\x1b[D");
    assert_eq!(process_special_keys("[RIGHT]"), b"\x1b[C");
}

#[test]
fn test_function_keys() {
    assert_eq!(process_special_keys("[F1]"), b"\x1bOP");
    assert_eq!(process_special_keys("[F5]"), b"\x1b[15~");
    assert_eq!(process_special_keys("[F12]"), b"\x1b[24~");
}

#[test]
fn test_navigation_keys() {
    assert_eq!(process_special_keys("[HOME]"), b"\x1b[H");
    assert_eq!(process_special_keys("[END]"), b"\x1b[F");
    assert_eq!(process_special_keys("[PGUP]"), b"\x1b[5~");
    assert_eq!(process_special_keys("[PGDN]"), b"\x1b[6~");
    assert_eq!(process_special_keys("[DELETE]"), b"\x1b[3~");
    assert_eq!(process_special_keys("[BACKSPACE]"), b"\x7f");
}

#[test]
fn test_special_named_keys() {
    assert_eq!(process_special_keys("[TAB]"), b"\t");
    assert_eq!(process_special_keys("[ENTER]"), b"\r");
    assert_eq!(process_special_keys("[ESCAPE]"), b"\x1b");
}

#[test]
fn test_mixed_input() {
    let result = process_special_keys("ls -la[ENTER]");
    let mut expected = b"ls -la".to_vec();
    expected.push(b'\r');
    assert_eq!(result, expected);
}

#[test]
fn test_multiple_specials() {
    let result = process_special_keys("^C^C");
    assert_eq!(result, vec![3, 3]);
}

#[test]
fn test_unknown_bracket_passthrough() {
    assert_eq!(process_special_keys("[UNKNOWN]"), b"[UNKNOWN]");
}

#[test]
fn test_incomplete_hex_passthrough() {
    // \x with less than 2 following chars
    assert_eq!(process_special_keys("\\x"), b"\\x");
}

#[test]
fn test_caret_not_followed_by_letter() {
    assert_eq!(process_special_keys("^1"), b"^1");
    assert_eq!(process_special_keys("^"), b"^");
}

#[test]
fn test_shift_tab() {
    assert_eq!(process_special_keys("[SHIFT+TAB]"), b"\x1b[Z");
}

#[test]
fn test_ctrl_named_keys() {
    assert_eq!(process_special_keys("[CTRL+C]"), vec![0x03]);
    assert_eq!(process_special_keys("[CTRL+D]"), vec![0x04]);
    assert_eq!(process_special_keys("[CTRL+L]"), vec![0x0c]);
    assert_eq!(process_special_keys("[CTRL+O]"), vec![0x0f]);
    assert_eq!(process_special_keys("[CTRL+U]"), vec![0x15]);
    assert_eq!(process_special_keys("[CTRL+A]"), vec![0x01]);
    assert_eq!(process_special_keys("[CTRL+Z]"), vec![0x1a]);
}

#[test]
fn test_paste_brackets() {
    let result = process_special_keys("[PASTE_START]hello[PASTE_END]");
    let mut expected = Vec::new();
    expected.extend_from_slice(b"\x1b[200~");
    expected.extend_from_slice(b"hello");
    expected.extend_from_slice(b"\x1b[201~");
    assert_eq!(result, expected);
}

#[test]
fn test_ctrl_bracket_vs_caret() {
    // Both [CTRL+C] and ^C should produce 0x03
    assert_eq!(process_special_keys("[CTRL+C]"), process_special_keys("^C"));
    assert_eq!(process_special_keys("[CTRL+A]"), process_special_keys("^A"));
    assert_eq!(process_special_keys("[CTRL+Z]"), process_special_keys("^Z"));
}
