//! The session list as rows of the terminal.
use ratatui::buffer::Buffer;
use ratatui::layout::Rect;
use ratatui::style::{Color, Style};
use tttt::session::{SessionMetadata, SessionStatus};
use tttt::sidebar_widget::{truncate, SidebarWidget};

/// Draws the rows of a list.
fn draw(widget: SidebarWidget, area: Rect, buf: &mut Buffer) {
    for row in widget.render(area.width, area.height) {
        let style = if row.active {
            Style::default().fg(Color::Black).bg(Color::White)
        } else {
            Style::default().fg(Color::White).bg(Color::Black)
        };
        let y = area.y + row.offset;
        for col in 0..area.width {
            buf[(area.x + col, y)].set_style(style);
        }
        buf.set_string(area.x, y, row.prefix(), style);
        buf.set_string(area.x + 2, y, &row.text, style);
    }
}

fn row_text(buf: &Buffer, area: Rect, row_offset: u16, x_start: u16, len: u16) -> String {
    let y = area.y + row_offset;
    (x_start..x_start + len).map(|x| buf[(x, y)].symbol().to_string()).collect()
}

fn make_meta(id: &str, status: SessionStatus) -> SessionMetadata {
    SessionMetadata {
        id: id.to_string(),
        command: "bash".to_string(),
        status,
        cols: 80,
        rows: 24,
        name: None,
        created_at: None,
    }
}

fn make_named_meta(id: &str, name: &str, status: SessionStatus) -> SessionMetadata {
    SessionMetadata {
        id: id.to_string(),
        command: "bash".to_string(),
        status,
        cols: 80,
        rows: 24,
        name: Some(name.to_string()),
        created_at: None,
    }
}

/// Collect the full text of a row (all columns) as a String.
fn full_row(buf: &Buffer, area: Rect, row_offset: u16) -> String {
    row_text(buf, area, row_offset, area.x, area.width)
}

#[test]
fn test_header_renders() {
    let area = Rect::new(0, 0, 20, 10);
    let mut buf = Buffer::empty(area);
    let sessions: Vec<SessionMetadata> = vec![];
    let reminders: Vec<String> = vec![];

    draw(SidebarWidget::new(&sessions, None, &reminders), area, &mut buf);

    let row0 = full_row(&buf, area, 0);
    assert!(row0.contains("TERMINALS"), "expected 'TERMINALS' in first row, got: {row0:?}");
}

#[test]
fn test_header_with_build_info() {
    let area = Rect::new(0, 0, 30, 10);
    let mut buf = Buffer::empty(area);
    let sessions: Vec<SessionMetadata> = vec![];
    let reminders: Vec<String> = vec![];

    draw(SidebarWidget::new(&sessions, None, &reminders).build_info("v1.0"), area, &mut buf);

    let row0 = full_row(&buf, area, 0);
    assert!(
        row0.contains("TERMINALS (v1.0)."),
        "expected 'TERMINALS (v1.0).' in first row, got: {row0:?}"
    );
}

#[test]
fn test_separator_renders() {
    let area = Rect::new(0, 0, 20, 10);
    let mut buf = Buffer::empty(area);
    let sessions: Vec<SessionMetadata> = vec![];
    let reminders: Vec<String> = vec![];

    draw(SidebarWidget::new(&sessions, None, &reminders), area, &mut buf);

    let row1 = full_row(&buf, area, 1);
    assert!(row1.contains("====="), "expected '=====' in row 1, got: {row1:?}");
}

#[test]
fn test_session_list_running() {
    let area = Rect::new(0, 0, 25, 10);
    let mut buf = Buffer::empty(area);
    let sessions = vec![make_meta("pty-1", SessionStatus::Running)];
    let reminders: Vec<String> = vec![];

    draw(SidebarWidget::new(&sessions, None, &reminders), area, &mut buf);

    let row2 = full_row(&buf, area, 2);
    assert!(row2.contains('*'), "running session should show '*', got: {row2:?}");
}

#[test]
fn test_session_list_exit_ok() {
    let area = Rect::new(0, 0, 25, 10);
    let mut buf = Buffer::empty(area);
    let sessions = vec![make_meta("pty-1", SessionStatus::Exited(0))];
    let reminders: Vec<String> = vec![];

    draw(SidebarWidget::new(&sessions, None, &reminders), area, &mut buf);

    let row2 = full_row(&buf, area, 2);
    assert!(row2.contains('.'), "exit-0 session should show '.', got: {row2:?}");
}

#[test]
fn test_session_list_exit_fail() {
    let area = Rect::new(0, 0, 25, 10);
    let mut buf = Buffer::empty(area);
    let sessions = vec![make_meta("pty-1", SessionStatus::Exited(1))];
    let reminders: Vec<String> = vec![];

    draw(SidebarWidget::new(&sessions, None, &reminders), area, &mut buf);

    let row2 = full_row(&buf, area, 2);
    assert!(row2.contains('!'), "exit non-0 session should show '!', got: {row2:?}");
}

#[test]
fn test_active_session_highlighted() {
    let area = Rect::new(0, 0, 25, 10);
    let mut buf = Buffer::empty(area);
    let sessions = vec![
        make_meta("pty-1", SessionStatus::Running),
        make_meta("pty-2", SessionStatus::Running),
    ];
    let reminders: Vec<String> = vec![];

    draw(SidebarWidget::new(&sessions, Some("pty-1"), &reminders), area, &mut buf);

    // Row 2 is the first session (pty-1), which is active.
    let cell = &buf[(area.x + 2, area.y + 2)]; // first content cell of row 2
    let style = cell.style();
    assert_eq!(
        style.fg,
        Some(Color::Black),
        "active session fg should be Black"
    );
    assert_eq!(
        style.bg,
        Some(Color::White),
        "active session bg should be White"
    );
}

#[test]
fn test_inactive_session_style() {
    let area = Rect::new(0, 0, 25, 10);
    let mut buf = Buffer::empty(area);
    let sessions = vec![
        make_meta("pty-1", SessionStatus::Running),
        make_meta("pty-2", SessionStatus::Running),
    ];
    let reminders: Vec<String> = vec![];

    draw(SidebarWidget::new(&sessions, Some("pty-1"), &reminders), area, &mut buf);

    // Row 3 is pty-2, which is inactive.
    let cell = &buf[(area.x + 2, area.y + 3)];
    let style = cell.style();
    assert_eq!(
        style.fg,
        Some(Color::White),
        "inactive session fg should be White"
    );
    assert_eq!(
        style.bg,
        Some(Color::Black),
        "inactive session bg should be Black"
    );
}

#[test]
fn test_session_uses_name_when_available() {
    let area = Rect::new(0, 0, 30, 10);
    let mut buf = Buffer::empty(area);
    let sessions = vec![make_named_meta("pty-1", "my-session", SessionStatus::Running)];
    let reminders: Vec<String> = vec![];

    draw(SidebarWidget::new(&sessions, None, &reminders), area, &mut buf);

    let row2 = full_row(&buf, area, 2);
    assert!(
        row2.contains("my-session"),
        "should display name 'my-session', got: {row2:?}"
    );
}

#[test]
fn test_session_uses_id_when_no_name() {
    let area = Rect::new(0, 0, 30, 10);
    let mut buf = Buffer::empty(area);
    let sessions = vec![make_meta("pty-99", SessionStatus::Running)];
    let reminders: Vec<String> = vec![];

    draw(SidebarWidget::new(&sessions, None, &reminders), area, &mut buf);

    let row2 = full_row(&buf, area, 2);
    assert!(
        row2.contains("pty-99"),
        "should display id 'pty-99' when name is None, got: {row2:?}"
    );
}

#[test]
fn test_long_name_truncated() {
    // Width 15: "| " (2) + usable (12) = 14, but we set width=15 → usable = 12
    // name_width = 12 - 3 = 9
    let area = Rect::new(0, 0, 15, 10);
    let mut buf = Buffer::empty(area);
    let long_name = "averylongsessionname";
    let sessions = vec![make_named_meta("pty-1", long_name, SessionStatus::Running)];
    let reminders: Vec<String> = vec![];

    draw(SidebarWidget::new(&sessions, None, &reminders), area, &mut buf);

    let row2 = full_row(&buf, area, 2);
    assert!(
        row2.contains("..."),
        "long name should be truncated with '...', got: {row2:?}"
    );
    assert!(
        !row2.contains(long_name),
        "full long name should not appear, got: {row2:?}"
    );
}

#[test]
fn test_reminders_section() {
    let area = Rect::new(0, 0, 30, 15);
    let mut buf = Buffer::empty(area);
    let sessions: Vec<SessionMetadata> = vec![];
    let reminders = vec!["Check tests".to_string(), "Deploy v2".to_string()];

    draw(SidebarWidget::new(&sessions, None, &reminders), area, &mut buf);

    // Collect all text across all rows.
    let all_text: String = (0..area.height)
        .map(|r| full_row(&buf, area, r))
        .collect::<Vec<_>>()
        .join("\n");

    assert!(
        all_text.contains("REMINDERS"),
        "expected 'REMINDERS' header, got:\n{all_text}"
    );
    assert!(
        all_text.contains("Check tests"),
        "expected 'Check tests' reminder, got:\n{all_text}"
    );
    assert!(
        all_text.contains("Deploy v2"),
        "expected 'Deploy v2' reminder, got:\n{all_text}"
    );
}

#[test]
fn test_empty_sessions() {
    let area = Rect::new(0, 0, 20, 5);
    let mut buf = Buffer::empty(area);
    let sessions: Vec<SessionMetadata> = vec![];
    let reminders: Vec<String> = vec![];

    // Should not panic.
    draw(SidebarWidget::new(&sessions, None, &reminders), area, &mut buf);

    let row0 = full_row(&buf, area, 0);
    assert!(row0.contains("TERMINALS"), "header should still render for empty sessions");
    let row1 = full_row(&buf, area, 1);
    assert!(row1.contains("====="), "separator should still render for empty sessions");
}

#[test]
fn test_filler_rows() {
    // 1 session in a 10-row area → rows 4..10 should be filler (non-empty "| " lines).
    let area = Rect::new(0, 0, 20, 10);
    let mut buf = Buffer::empty(area);
    let sessions = vec![make_meta("pty-1", SessionStatus::Running)];
    let reminders: Vec<String> = vec![];

    draw(SidebarWidget::new(&sessions, None, &reminders), area, &mut buf);

    // Row 3 onwards should start with "| " (the prefix written by render_line).
    for r in 3..area.height {
        let prefix: String = row_text(&buf, area, r, area.x, 2);
        assert_eq!(
            prefix, "| ",
            "filler row {r} should start with '| ', got: {prefix:?}"
        );
    }
}

#[test]
fn texts_are_cut_by_characters() {
    assert_eq!(truncate("short", 10), "short");
    assert_eq!(truncate("this is long text", 10), "this is...");
    assert_eq!(truncate("\u{e9}\u{e9}\u{e9}\u{e9}\u{e9}", 5), "\u{e9}\u{e9}\u{e9}\u{e9}\u{e9}");
    assert_eq!(truncate("\u{4e2d}\u{6587}\u{5b57}\u{4e2d}\u{6587}\u{5b57}", 5), "\u{4e2d}\u{6587}...");
    assert_eq!(truncate("\u{4e2d}\u{6587}", 1), "\u{4e2d}");
}

#[test]
fn labels_are_cut_by_letters() {
    let shown = |name: &str, width: u16| {
        let sessions = vec![make_named_meta("pty-1", name, SessionStatus::Running)];
        SidebarWidget::new(&sessions, None, &[]).render(width, 5).swap_remove(2).text
    };
    assert_eq!(shown("ééé", 11), "0* ééé  ");
    assert_eq!(shown("中中中中中中中éé", 30), format!("0* 中中中中中中中éé{}", " ".repeat(15)));
    assert_eq!(shown(&"中".repeat(9), 30), format!("0* {}{}", "中".repeat(9), " ".repeat(15)));
    assert_eq!(shown(&"中".repeat(25), 30), format!("0* {}...", "中".repeat(21)));
    // With no room for the name, what stands in front of it is cut.
    assert_eq!(shown("ééé", 5), "0*");
}

#[test]
fn headers_are_cut_by_letters() {
    let header = |width: u16| {
        SidebarWidget::new(&[], None, &[]).build_info("ä中").render(width, 5).swap_remove(0).text
    };
    assert_eq!(header(18), "TERMINALS (ä中).");
    assert_eq!(header(17), "TERMINALS (ä中)");
    assert_eq!(header(15), "TERMINALS (ä");
    assert_eq!(header(20), "TERMINALS (ä中).  ");
}
