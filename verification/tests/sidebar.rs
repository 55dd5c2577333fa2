//! The session list as lines for a terminal.
use tttt::session::{SessionMetadata, SessionStatus};
use tttt::sidebar::{truncate, SidebarRenderer};

fn make_meta(id: &str, status: SessionStatus) -> SessionMetadata {
    SessionMetadata {
        id: id.to_string(),
        command: "bash".to_string(),
        status,
        cols: 80,
        rows: 24,
        name: None,
        created_at: None,
    }
}

#[test]
fn test_sidebar_render_empty() {
    let renderer = SidebarRenderer::new(30);
    let lines = renderer.render(&[], None, 120, 10, &[]);
    // Should have header + separator + filler lines
    assert!(!lines.is_empty());
    // First line is TERMINALS header
    assert!(lines[0].content.contains("TERMINALS"));
}

#[test]
fn test_sidebar_render_sessions() {
    let renderer = SidebarRenderer::new(30);
    let sessions = vec![
        make_meta("pty-1", SessionStatus::Running),
        make_meta("pty-2", SessionStatus::Exited(0)),
    ];
    let lines = renderer.render(&sessions, Some("pty-1"), 120, 10, &[]);
    let combined: String = lines.iter().map(|l| l.content.clone()).collect();
    assert!(combined.contains("pty-1"));
    assert!(combined.contains("pty-2"));
}

#[test]
fn test_sidebar_active_highlighted() {
    let renderer = SidebarRenderer::new(30);
    let sessions = vec![
        make_meta("pty-1", SessionStatus::Running),
        make_meta("pty-2", SessionStatus::Running),
    ];
    let lines = renderer.render(&sessions, Some("pty-1"), 120, 10, &[]);
    // Active session should have the highlight attribute (black on white: 30;47)
    let active_line = lines.iter().find(|l| l.content.contains("pty-1")).unwrap();
    assert!(active_line.content.contains("\x1b[30;47m"));
}

#[test]
fn test_sidebar_truncates_long_names() {
    let renderer = SidebarRenderer::new(20);
    let sessions = vec![make_meta(
        "very-long-session-name-that-exceeds-width",
        SessionStatus::Running,
    )];
    let lines = renderer.render(&sessions, None, 100, 10, &[]);
    let session_line = lines.iter().find(|l| l.content.contains("very")).unwrap();
    // Should be truncated with "..."
    assert!(session_line.content.contains("...") || session_line.content.len() < 100);
}

#[test]
fn test_sidebar_render_reminders() {
    let renderer = SidebarRenderer::new(30);
    let reminders = vec!["Check tests".to_string(), "Deploy v2".to_string()];
    let lines = renderer.render(&[], None, 120, 15, &reminders);
    let combined: String = lines.iter().map(|l| l.content.clone()).collect();
    assert!(combined.contains("REMINDERS"));
    assert!(combined.contains("Check tests"));
    assert!(combined.contains("Deploy v2"));
}

#[test]
fn test_sidebar_status_chars() {
    let renderer = SidebarRenderer::new(30);
    let sessions = vec![
        make_meta("running", SessionStatus::Running),
        make_meta("ok", SessionStatus::Exited(0)),
        make_meta("fail", SessionStatus::Exited(1)),
    ];
    let lines = renderer.render(&sessions, None, 120, 10, &[]);
    let combined: String = lines.iter().map(|l| l.content.clone()).collect();
    assert!(combined.contains("0*"), "running should have * marker");
    assert!(combined.contains("1."), "exit 0 should have . marker");
    assert!(combined.contains("2!"), "exit non-0 should have ! marker");
}

#[test]
fn test_sidebar_lines_positioned_correctly() {
    let renderer = SidebarRenderer::new(30);
    let lines = renderer.render(&[], None, 120, 5, &[]);
    // All lines should have sequential row numbers
    for (i, line) in lines.iter().enumerate() {
        assert_eq!(line.row, (i + 1) as u16);
    }
}

#[test]
fn test_truncate_function() {
    assert_eq!(truncate("short", 10), "short");
    assert_eq!(truncate("this is long text", 10), "this is...");
    assert_eq!(truncate("ab", 2), "ab");
    assert_eq!(truncate("abc", 3), "abc");
}
