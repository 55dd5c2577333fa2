//! Viewers that follow the screen from elsewhere.
use tttt::pane_renderer::PaneRenderer;
use tttt::protocol::{encode_message, ServerMsg, SessionInfo};
use tttt::viewer::{ReadEvent, ViewerClient};
use tttt::vt100::parser::Parser;

fn make_viewer() -> ViewerClient {
    ViewerClient::new(120, 40, 30)
}

#[test]
fn test_viewer_client_new() {
    let viewer = make_viewer();
    assert!(viewer.connected);
    assert_eq!(viewer.cols, 120);
    assert_eq!(viewer.rows, 40);
    assert!(viewer.active_session.is_none());
}

#[test]
fn test_viewer_send_screen_update() {
    let mut viewer = make_viewer();
    let mut parser = Parser::new(3, 20, 0);
    parser.process(b"hi");

    // Resize the viewer's renderer to match
    viewer.renderer = PaneRenderer::new(20, 3, 1, 1);

    let message = viewer.send_screen_update(parser.screen(), 0, 2);
    match message {
        Some(ServerMsg::ScreenUpdate { screen_data, cursor_row, cursor_col }) => {
            assert!(!screen_data.is_empty(), "client should receive data");
            assert_eq!((cursor_row, cursor_col), (0, 2));
        }
        other => panic!("unexpected message: {:?}", other),
    }
    assert!(viewer.sent(true), "send should succeed");
}

#[test]
fn test_viewer_send_session_list() {
    let mut viewer = make_viewer();
    let sessions = vec![
        SessionInfo { id: "pty-1".into(), command: "bash".into(), status: "running".into() },
    ];
    match viewer.send_session_list(&sessions, Some("pty-1")) {
        ServerMsg::SessionList { sessions, active_id } => {
            assert_eq!(sessions.len(), 1);
            assert_eq!(sessions[0].command, "bash");
            assert_eq!(active_id, Some("pty-1".to_string()));
        }
        other => panic!("unexpected message: {:?}", other),
    }
    assert!(viewer.sent(true));
}

#[test]
fn test_viewer_send_goodbye() {
    let mut viewer = make_viewer();
    assert!(matches!(viewer.send_goodbye(), ServerMsg::Goodbye));
    assert!(!viewer.connected);
}

#[test]
fn test_viewer_read_available() {
    let mut viewer = make_viewer();
    let sent = encode_message(b"{\"KeyInput\":{\"bytes\":[104,101,108,108,111]}}");
    let n = viewer.read_available(ReadEvent::Data(sent));
    assert!(n > 0, "should have read data from client");
    assert!(!viewer.read_buf.is_empty());
}

#[test]
fn test_viewer_client_disconnect() {
    let mut viewer = make_viewer();
    let n = viewer.read_available(ReadEvent::Closed);
    assert!(!viewer.connected || n == 0);
}
