//! Drawing a screen into a part of the terminal.
use tttt::pane_renderer::PaneRenderer;
use tttt::vt100::parser::Parser;

fn render_to_display(output: &[u8], rows: u16, cols: u16) -> Parser {
    let mut display = Parser::new(rows, cols, 0);
    display.process(output);
    display
}

#[test]
fn test_pane_renderer_simple() {
    let mut parser = Parser::new(5, 20, 0);
    parser.process(b"hello");

    let mut renderer = PaneRenderer::new(20, 5, 1, 1);
    let output = renderer.render(parser.screen());

    // Verify by parsing on a display
    let display = render_to_display(&output, 5, 20);
    let contents = display.screen().contents();
    assert!(
        contents.contains("hello"),
        "display should contain 'hello': {:?}",
        contents
    );
}

#[test]
fn test_pane_renderer_dirty_tracking() {
    let mut parser = Parser::new(5, 20, 0);
    parser.process(b"hello");

    let mut renderer = PaneRenderer::new(20, 5, 1, 1);
    let output1 = renderer.render(parser.screen());
    assert!(!output1.is_empty());

    // Second render with no changes should produce nothing
    let output2 = renderer.render(parser.screen());
    assert!(
        output2.is_empty(),
        "second render with no changes should be empty, got {} bytes",
        output2.len()
    );
}

#[test]
fn test_pane_renderer_incremental_update() {
    let mut parser = Parser::new(5, 20, 0);
    parser.process(b"hello");

    let mut renderer = PaneRenderer::new(20, 5, 1, 1);
    let output1 = renderer.render(parser.screen());

    // Apply to display
    let mut display = Parser::new(5, 20, 0);
    display.process(&output1);
    assert!(display.screen().contents().contains("hello"));

    // Add more text
    parser.process(b" world");
    let output2 = renderer.render(parser.screen());

    // output2 should be smaller than output1 (only the changed cells)
    assert!(
        output2.len() < output1.len(),
        "incremental should be smaller: {} vs {}",
        output2.len(),
        output1.len()
    );

    display.process(&output2);
    assert!(
        display.screen().contents().contains("hello world"),
        "after incremental: {:?}",
        display.screen().contents()
    );
}

#[test]
fn test_pane_renderer_offset() {
    let mut parser = Parser::new(5, 20, 0);
    parser.process(b"X");

    // Pane starts at terminal row 3, col 5
    let mut renderer = PaneRenderer::new(20, 5, 3, 5);
    let output = renderer.render(parser.screen());

    // Verify on a wider display
    let display = render_to_display(&output, 10, 30);
    // 'X' should be at row 2 (0-indexed), col 4 (0-indexed) = (3-1, 5-1)
    let cell = display.screen().cell(2, 4);
    assert_eq!(
        cell.map(|c| c.contents()),
        Some("X".to_string()),
        "X should be at offset position"
    );
}

#[test]
fn test_pane_renderer_cursor_position() {
    let renderer = PaneRenderer::new(50, 10, 1, 1);
    assert_eq!(renderer.cursor_terminal_position(0, 0), (1, 1));
    assert_eq!(renderer.cursor_terminal_position(5, 10), (6, 11));
}

#[test]
fn test_pane_renderer_cursor_position_with_offset() {
    let renderer = PaneRenderer::new(50, 10, 3, 5);
    assert_eq!(renderer.cursor_terminal_position(0, 0), (3, 5));
    assert_eq!(renderer.cursor_terminal_position(2, 7), (5, 12));
}

#[test]
fn test_pane_renderer_invalidate() {
    let mut parser = Parser::new(5, 20, 0);
    parser.process(b"hello");

    let mut renderer = PaneRenderer::new(20, 5, 1, 1);
    let _ = renderer.render(parser.screen());

    // Second render: no changes
    let output2 = renderer.render(parser.screen());
    assert!(output2.is_empty());

    // After invalidate, should re-render everything
    renderer.invalidate();
    let output3 = renderer.render(parser.screen());
    assert!(!output3.is_empty(), "after invalidate should re-render");
}

#[test]
fn test_pane_renderer_newlines() {
    let mut parser = Parser::new(5, 20, 0);
    parser.process(b"line1\r\nline2");

    let mut renderer = PaneRenderer::new(20, 5, 1, 1);
    let output = renderer.render(parser.screen());

    let display = render_to_display(&output, 5, 20);
    let contents = display.screen().contents();
    assert!(contents.contains("line1"), "should have line1: {:?}", contents);
    assert!(contents.contains("line2"), "should have line2: {:?}", contents);
}

#[test]
fn test_pane_renderer_wider_display() {
    let pty_cols: u16 = 40;
    let pty_rows: u16 = 5;

    let mut parser = Parser::new(pty_rows, pty_cols, 0);
    parser.process(b"$ ls\r\nfile1  file2\r\n$ ");

    let mut renderer = PaneRenderer::new(pty_cols, pty_rows, 1, 1);
    let output = renderer.render(parser.screen());

    // Parse on a WIDER terminal
    let display = render_to_display(&output, pty_rows, 80);
    let contents = display.screen().contents();
    assert!(contents.contains("$ ls"), "should show '$ ls': {:?}", contents);
    assert!(contents.contains("file1  file2"), "should show files: {:?}", contents);
}

#[test]
fn test_pane_renderer_sequential_updates() {
    let pty_cols: u16 = 40;
    let pty_rows: u16 = 5;
    let display_cols: u16 = 80;

    let mut parser = Parser::new(pty_rows, pty_cols, 0);
    let mut renderer = PaneRenderer::new(pty_cols, pty_rows, 1, 1);
    let mut display = Parser::new(pty_rows, display_cols, 0);

    // Step 1: prompt
    parser.process(b"$ ");
    let output1 = renderer.render(parser.screen());
    display.process(&output1);
    assert!(display.screen().contents().contains("$ "), "step 1");

    // Step 2: command + output
    parser.process(b"ls\r\nfile1\r\n$ ");
    let output2 = renderer.render(parser.screen());
    display.process(&output2);

    let contents = display.screen().contents();
    assert!(contents.contains("$ ls"), "step 2 '$ ls': {:?}", contents);
    assert!(contents.contains("file1"), "step 2 'file1': {:?}", contents);
}

#[test]
fn test_pane_renderer_with_colors() {
    let mut parser = Parser::new(5, 40, 0);
    parser.process(b"\x1b[32mgreen\x1b[0m normal");

    let mut renderer = PaneRenderer::new(40, 5, 1, 1);
    let output = renderer.render(parser.screen());

    // Verify the output contains color sequences
    let s = String::from_utf8_lossy(&output);
    assert!(s.contains(";32m"), "should have green color: {:?}", s);

    // Verify on display
    let display = render_to_display(&output, 5, 40);
    let contents = display.screen().contents();
    assert!(contents.contains("green"), "display: {:?}", contents);
    assert!(contents.contains("normal"), "display: {:?}", contents);
}

#[test]
fn test_pane_renderer_resize() {
    let mut parser = Parser::new(5, 20, 0);
    parser.process(b"hello");

    let mut renderer = PaneRenderer::new(20, 5, 1, 1);
    let _ = renderer.render(parser.screen());

    renderer.resize(30, 8);
    // After resize, force_redraw is true
    parser.set_size(8, 30);
    let output = renderer.render(parser.screen());
    assert!(!output.is_empty(), "resize should trigger redraw");
}
