//! A screen in an area of the terminal.
use ratatui::buffer::Buffer;
use ratatui::layout::Rect;
use ratatui::style::Modifier;
use tttt::pty_widget::PtyWidget;
use tttt::selection::Selection;
use tttt::vt100::parser::Parser;
use tttt::vt100_style::{Color, Style};

/// The style that a drawn cell has on a terminal.
fn terminal_style(style: Style) -> ratatui::style::Style {
    let mut s = ratatui::style::Style::default();
    if let Some(c) = style.fg {
        s = s.fg(terminal_color(c));
    }
    if let Some(c) = style.bg {
        s = s.bg(terminal_color(c));
    }
    let modifiers = [
        (style.bold, Modifier::BOLD),
        (style.dim, Modifier::DIM),
        (style.italic, Modifier::ITALIC),
        (style.underlined, Modifier::UNDERLINED),
        (style.reversed, Modifier::REVERSED),
    ];
    for (set, modifier) in modifiers {
        if set {
            s = s.add_modifier(modifier);
        }
    }
    s
}

fn terminal_color(color: Color) -> ratatui::style::Color {
    match color {
        Color::DarkGray => ratatui::style::Color::DarkGray,
        Color::Indexed(i) => ratatui::style::Color::Indexed(i),
        Color::Rgb(r, g, b) => ratatui::style::Color::Rgb(r, g, b),
    }
}

/// Draws the cells of a widget.
fn draw(widget: &PtyWidget, area: Rect, buf: &mut Buffer) {
    for (row, line) in widget.render(area.width, area.height).iter().enumerate() {
        for (col, cell) in line.iter().enumerate() {
            if let Some(drawn) = cell {
                let style = terminal_style(drawn.style);
                buf[(area.x + col as u16, area.y + row as u16)].set_symbol(&drawn.symbol).set_style(style);
            }
        }
    }
}

fn make_screen(input: &[u8], cols: u16, rows: u16) -> Parser {
    let mut parser = Parser::new(rows, cols, 0);
    parser.process(input);
    parser
}

#[test]
fn test_renders_plain_text() {
    let parser = make_screen(b"Hello", 10, 2);
    let widget = PtyWidget::new(parser.screen());
    let area = Rect::new(0, 0, 10, 2);
    let mut buf = Buffer::empty(area);
    draw(&widget, area, &mut buf);
    assert_eq!(buf[(0, 0)].symbol(), "H");
    assert_eq!(buf[(1, 0)].symbol(), "e");
    assert_eq!(buf[(2, 0)].symbol(), "l");
    assert_eq!(buf[(3, 0)].symbol(), "l");
    assert_eq!(buf[(4, 0)].symbol(), "o");
}

#[test]
fn test_renders_bold_text() {
    // ESC[1m sets bold
    let parser = make_screen(b"\x1b[1mBold", 10, 2);
    let widget = PtyWidget::new(parser.screen());
    let area = Rect::new(0, 0, 10, 2);
    let mut buf = Buffer::empty(area);
    draw(&widget, area, &mut buf);
    assert_eq!(buf[(0, 0)].symbol(), "B");
    assert!(
        buf[(0, 0)].style().add_modifier.contains(Modifier::BOLD),
        "Expected BOLD modifier on 'B'"
    );
}

#[test]
fn test_renders_colored_text() {
    // ESC[31m sets red foreground (index 1)
    let parser = make_screen(b"\x1b[31mRed", 10, 2);
    let widget = PtyWidget::new(parser.screen());
    let area = Rect::new(0, 0, 10, 2);
    let mut buf = Buffer::empty(area);
    draw(&widget, area, &mut buf);
    assert_eq!(buf[(0, 0)].symbol(), "R");
    // ANSI 31 maps to Indexed(1) in vt100
    assert_eq!(buf[(0, 0)].style().fg, Some(ratatui::style::Color::Indexed(1)));
}

#[test]
fn test_gap_fill_width() {
    // PTY 5 cols, area 10 cols → columns 5-9 filled with gray dots
    let parser = make_screen(b"Hello", 5, 2);
    let widget = PtyWidget::new(parser.screen());
    let area = Rect::new(0, 0, 10, 2);
    let mut buf = Buffer::empty(area);
    draw(&widget, area, &mut buf);
    // Inside PTY area
    assert_eq!(buf[(4, 0)].symbol(), "o");
    // Gap fill: columns 5-9 in row 0
    for col in 5..10u16 {
        assert_eq!(
            buf[(col, 0)].symbol(),
            ".",
            "Expected '.' at col {col} (gap fill)"
        );
        assert_eq!(
            buf[(col, 0)].style().fg,
            Some(ratatui::style::Color::DarkGray),
            "Expected DarkGray fg at col {col}"
        );
    }
}

#[test]
fn test_gap_fill_height() {
    // PTY 2 rows, area 5 rows → rows 2-4 filled with gray dots
    let parser = make_screen(b"AB", 5, 2);
    let widget = PtyWidget::new(parser.screen());
    let area = Rect::new(0, 0, 5, 5);
    let mut buf = Buffer::empty(area);
    draw(&widget, area, &mut buf);
    // Row 0 should have content
    assert_eq!(buf[(0, 0)].symbol(), "A");
    // Rows 2-4 should be gap fill
    for row in 2..5u16 {
        assert_eq!(
            buf[(0, row)].symbol(),
            ".",
            "Expected '.' at row {row} (gap fill)"
        );
        assert_eq!(
            buf[(0, row)].style().fg,
            Some(ratatui::style::Color::DarkGray),
            "Expected DarkGray fg at row {row}"
        );
    }
}

#[test]
fn test_area_narrower_than_pty() {
    // PTY 10x2 wraps "Hello World" across two rows; area 3x2 clips to
    // the leftmost 3 columns. Heights match so no row_offset is involved
    // and the assertions exercise pure column clipping.
    let parser = make_screen(b"Hello World", 10, 2);
    let widget = PtyWidget::new(parser.screen());
    let area = Rect::new(0, 0, 3, 2);
    let mut buf = Buffer::empty(area);
    // Should not panic
    draw(&widget, area, &mut buf);
    assert_eq!(buf[(0, 0)].symbol(), "H");
    assert_eq!(buf[(1, 0)].symbol(), "e");
    assert_eq!(buf[(2, 0)].symbol(), "l");
}

#[test]
fn test_area_shorter_than_pty_shows_bottom_rows() {
    // PTY 5x4, area 5x2 — when the PTY is taller than the area we render
    // the bottom area.height rows (so the cursor / latest output stays
    // visible). With four lines of text the bottom two rows are "C" and
    // "D".
    let parser = make_screen(b"A\r\nB\r\nC\r\nD", 5, 4);
    let widget = PtyWidget::new(parser.screen());
    let area = Rect::new(0, 0, 5, 2);
    let mut buf = Buffer::empty(area);
    draw(&widget, area, &mut buf);
    // The bottom two PTY rows (rows 2 and 3) should appear at area
    // rows 0 and 1.
    assert_eq!(buf[(0, 0)].symbol(), "C", "area row 0 should be PTY row 2");
    assert_eq!(buf[(0, 1)].symbol(), "D", "area row 1 should be PTY row 3");
    // Top two PTY rows ("A" and "B") should not appear anywhere in
    // the rendered buffer.
    for row in 0..area.height {
        for col in 0..area.width {
            let sym = buf[(col, row)].symbol();
            assert_ne!(sym, "A", "PTY row 0 should be clipped off the top");
            assert_ne!(sym, "B", "PTY row 1 should be clipped off the top");
        }
    }
}

#[test]
fn test_empty_screen() {
    // Empty screen (no input) should render spaces for PTY cells
    let parser = make_screen(b"", 5, 2);
    let widget = PtyWidget::new(parser.screen());
    let area = Rect::new(0, 0, 5, 2);
    let mut buf = Buffer::empty(area);
    draw(&widget, area, &mut buf);
    // All PTY cells should be spaces (empty cell contents → " ")
    for col in 0..5u16 {
        assert_eq!(
            buf[(col, 0)].symbol(),
            " ",
            "Expected space at col {col} for empty screen"
        );
    }
}

#[test]
fn test_wide_character() {
    // "中" is a wide character spanning 2 columns; continuation cell is skipped
    let parser = make_screen("中".as_bytes(), 10, 2);
    let widget = PtyWidget::new(parser.screen());
    let area = Rect::new(0, 0, 10, 2);
    let mut buf = Buffer::empty(area);
    draw(&widget, area, &mut buf);
    // Column 0 should have the wide character
    assert_eq!(buf[(0, 0)].symbol(), "中");
    // Column 1 is the wide continuation — it should remain as initialized (space)
    // since we skip it with `continue`
    assert_eq!(buf[(1, 0)].symbol(), " ");
}

#[test]
fn test_renders_with_offset_area() {
    // Area starting at (5, 3) should still render correctly
    let parser = make_screen(b"Hi", 10, 2);
    let widget = PtyWidget::new(parser.screen());
    let area = Rect::new(5, 3, 10, 2);
    let mut buf = Buffer::empty(area);
    draw(&widget, area, &mut buf);
    // Buffer coordinates are offset: x=5, y=3 for the first cell
    assert_eq!(buf[(5, 3)].symbol(), "H");
    assert_eq!(buf[(6, 3)].symbol(), "i");
}

#[test]
fn test_selection_highlights_cells() {
    let parser = make_screen(b"Hello World", 20, 2);
    let mut sel = Selection::new(0, 0);
    // Select first 5 chars (cols 0-4 inclusive)
    sel.head = (0, 4);

    let widget = PtyWidget::new(parser.screen()).with_selection(&sel);
    let area = Rect::new(0, 0, 20, 2);
    let mut buf = Buffer::empty(area);
    draw(&widget, area, &mut buf);

    // Selected cells (cols 0-4, row 0) should have REVERSED modifier
    assert!(
        buf[(0, 0)].style().add_modifier.contains(Modifier::REVERSED),
        "col 0 should be REVERSED"
    );
    assert!(
        buf[(4, 0)].style().add_modifier.contains(Modifier::REVERSED),
        "col 4 should be REVERSED"
    );
    // Unselected cell (col 5) should NOT have REVERSED
    assert!(
        !buf[(5, 0)].style().add_modifier.contains(Modifier::REVERSED),
        "col 5 should NOT be REVERSED"
    );
}

#[test]
fn test_no_selection_no_highlight() {
    let parser = make_screen(b"Hello", 10, 2);
    let widget = PtyWidget::new(parser.screen());
    let area = Rect::new(0, 0, 10, 2);
    let mut buf = Buffer::empty(area);
    draw(&widget, area, &mut buf);

    // No cell should have REVERSED modifier
    assert!(
        !buf[(0, 0)].style().add_modifier.contains(Modifier::REVERSED),
        "No selection: col 0 should NOT be REVERSED"
    );
}

#[test]
fn test_selection_does_not_affect_gap_fill() {
    // PTY is 5 cols wide, area is 10 cols — cols 5-9 are gap fill
    let parser = make_screen(b"Hi", 5, 2);
    let mut sel = Selection::new(0, 0);
    sel.head = (0, 9); // extends into gap area (beyond PTY cols)

    let widget = PtyWidget::new(parser.screen()).with_selection(&sel);
    let area = Rect::new(0, 0, 10, 2);
    let mut buf = Buffer::empty(area);
    draw(&widget, area, &mut buf);

    // Gap fill cells (cols 5-9) should NOT be highlighted
    for col in 5..10u16 {
        assert!(
            !buf[(col, 0)].style().add_modifier.contains(Modifier::REVERSED),
            "Gap fill col {col} should NOT be REVERSED"
        );
    }
}
