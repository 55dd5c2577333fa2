//! The tools that steer the user interface.
use serde_json::Value;
use tttt::backend::MockPty;
use tttt::manager::SessionManager;
use tttt::mcp::arguments::Arguments;
use tttt::mcp::error::McpError;
use tttt::mcp::handler::{Step, ToolHandler};
use tttt::mcp::tui_handler::{TuiHighlight, TuiState, TuiToolHandler};
use tttt::session::PtySession;
use tttt::time::{Duration, Instant, Moment, UnixTime};

/// A client that waits for the answers of its calls.
trait Client {
    fn call(&mut self, name: &str, args: &str) -> Result<Value, McpError>;
}

impl<H: ToolHandler> Client for H {
    fn call(&mut self, name: &str, args: &str) -> Result<Value, McpError> {
        let mut moment = NOON;
        let mut step = self.handle_tool_call(name, &Arguments::read(args.as_bytes()), moment);
        loop {
            match step {
                Step::Done(Ok(reply)) => return Ok(serde_json::from_str(&reply).unwrap()),
                Step::Done(Err(e)) => return Err(e),
                Step::Wait { millis, task } => {
                    moment = later(moment, millis);
                    step = self.resume(task, moment);
                }
                other => panic!("unexpected step: {:?}", other),
            }
        }
    }
}

/// Noon on a day in November 2023.
const NOON: Moment = Moment {
    now: Instant { nanos: 5_000_000_000 },
    unix: UnixTime { secs: 1_700_049_600, nanos: 0 },
};

fn later(moment: Moment, millis: u64) -> Moment {
    let nanos = moment.unix.nanos as u64 + millis % 1_000 * 1_000_000;
    Moment {
        now: moment.now.plus(Duration::from_millis(millis)),
        unix: UnixTime {
            secs: moment.unix.secs + (millis / 1_000 + nanos / 1_000_000_000) as i64,
            nanos: (nanos % 1_000_000_000) as u32,
        },
    }
}

/// The rectangles by session.
struct Highlights<'a>(&'a TuiState);

impl<'a> Highlights<'a> {
    fn get(&self, session_id: &str) -> Option<Vec<&'a TuiHighlight>> {
        let state: &'a TuiState = self.0;
        let found: Vec<&'a TuiHighlight> = state
            .highlights
            .iter()
            .filter(|h| h.session_id == session_id)
            .map(|h| &h.highlight)
            .collect();
        if found.is_empty() {
            None
        } else {
            Some(found)
        }
    }

    fn contains_key(&self, session_id: &str) -> bool {
        self.get(session_id).is_some()
    }
}

fn make_tui_handler() -> TuiToolHandler<MockPty> {
    let mut sessions: SessionManager<MockPty> = SessionManager::new();
    // Add a test session
    let session = PtySession::new(
        "pty-1".to_string(),
        MockPty::new(80, 24),
        "bash".to_string(),
        80, 24,
    );
    sessions.add_session(session).unwrap();
    TuiToolHandler::new(
        TuiState::new(),
        sessions,
        120, 40,
    )
}

#[test]
fn test_tui_switch_valid_session() {
    let mut handler = make_tui_handler();
    let result = handler.call("tttt_tui_switch", r#"{"session_id": "pty-1"}"#).unwrap();
    assert_eq!(result["status"], "ok");
    assert_eq!(result["switched_to"], "pty-1");
    let pending = handler.tui_state().pending_switch.clone();
    assert_eq!(pending, Some("pty-1".to_string()));
    assert!(handler.tui_state().dirty);
}

#[test]
fn test_tui_switch_by_name_resolves_to_id() {
    // Add a named session
    let mut sessions: SessionManager<MockPty> = SessionManager::new();
    let session = PtySession::new(
        "pty-1".to_string(),
        MockPty::new(80, 24),
        "bash".to_string(),
        80, 24,
    );
    sessions.add_session_with_name(session, "my-shell".to_string()).unwrap();
    let tui_state = TuiState::new();
    let mut handler = TuiToolHandler::new(tui_state, sessions, 120, 40);

    // Switch using the name
    let result = handler.call("tttt_tui_switch", r#"{"session_id": "my-shell"}"#).unwrap();
    // Should resolve to the canonical ID, not the name
    assert_eq!(result["switched_to"], "pty-1");
    let pending = handler.tui_state().pending_switch.clone();
    assert_eq!(pending, Some("pty-1".to_string()));
}

#[test]
fn test_tui_highlight_by_name_resolves_to_id() {
    let mut sessions: SessionManager<MockPty> = SessionManager::new();
    let session = PtySession::new(
        "pty-1".to_string(),
        MockPty::new(80, 24),
        "bash".to_string(),
        80, 24,
    );
    sessions.add_session_with_name(session, "my-shell".to_string()).unwrap();
    let tui_state = TuiState::new();
    let mut handler = TuiToolHandler::new(tui_state, sessions, 120, 40);

    // Add highlight using the name
    let result = handler.call("tttt_tui_highlight", r#"{ "session_id": "my-shell", "id": "h1", "color": "red", "x": 0, "y": 0, "width": 10, "height": 1 }"#).unwrap();
    assert_eq!(result["status"], "ok");
    // Highlight should be keyed by canonical ID
    let highlights = Highlights(handler.tui_state());
    assert!(highlights.contains_key("pty-1"));
    assert!(!highlights.contains_key("my-shell"));
}

#[test]
fn test_tui_switch_invalid_session() {
    let mut handler = make_tui_handler();
    let result = handler.call("tttt_tui_switch", r#"{"session_id": "pty-999"}"#);
    assert!(result.is_err());
}

#[test]
fn test_tui_get_info() {
    let mut handler = make_tui_handler();
    let result = handler.call("tttt_tui_get_info", r#"{}"#).unwrap();
    assert_eq!(result["screen_cols"], 120);
    assert_eq!(result["screen_rows"], 40);
    assert_eq!(result["sessions"].as_array().unwrap().len(), 1);
    assert_eq!(result["highlight_count"], 0);
}

#[test]
fn test_tui_highlight_add() {
    let mut handler = make_tui_handler();
    let result = handler.call("tttt_tui_highlight", r#"{ "session_id": "pty-1", "id": "h1", "x": 5, "y": 2, "width": 10, "height": 3, "color": "red" }"#).unwrap();
    assert_eq!(result["status"], "ok");
    assert_eq!(result["action"], "set");

    let highlights = Highlights(handler.tui_state());
    let list = highlights.get("pty-1").unwrap();
    assert_eq!(list.len(), 1);
    assert_eq!(list[0].color, "red");
    assert_eq!(list[0].x, 5);
}

#[test]
fn test_tui_highlight_multiple_per_pane() {
    let mut handler = make_tui_handler();
    handler.call("tttt_tui_highlight", r#"{ "session_id": "pty-1", "id": "h1", "x": 0, "y": 0, "width": 5, "height": 1, "color": "red" }"#).unwrap();
    handler.call("tttt_tui_highlight", r#"{ "session_id": "pty-1", "id": "h2", "x": 10, "y": 5, "width": 20, "height": 2, "color": "blue" }"#).unwrap();

    let highlights = Highlights(handler.tui_state());
    let list = highlights.get("pty-1").unwrap();
    assert_eq!(list.len(), 2);
}

#[test]
fn test_tui_highlight_update_existing() {
    let mut handler = make_tui_handler();
    handler.call("tttt_tui_highlight", r#"{ "session_id": "pty-1", "id": "h1", "x": 0, "y": 0, "width": 5, "height": 1, "color": "red" }"#).unwrap();
    handler.call("tttt_tui_highlight", r#"{ "session_id": "pty-1", "id": "h1", "x": 10, "y": 10, "width": 20, "height": 5, "color": "green" }"#).unwrap();

    let highlights = Highlights(handler.tui_state());
    let list = highlights.get("pty-1").unwrap();
    assert_eq!(list.len(), 1);
    assert_eq!(list[0].color, "green");
    assert_eq!(list[0].x, 10);
}

#[test]
fn test_tui_highlight_remove() {
    let mut handler = make_tui_handler();
    handler.call("tttt_tui_highlight", r#"{ "session_id": "pty-1", "id": "h1", "x": 0, "y": 0, "width": 5, "height": 1, "color": "red" }"#).unwrap();
    let result = handler.call("tttt_tui_highlight", r#"{ "session_id": "pty-1", "id": "h1", "color": "" }"#).unwrap();
    assert_eq!(result["action"], "removed");

    let highlights = Highlights(handler.tui_state());
    assert!(highlights.get("pty-1").is_none());
}

#[test]
fn test_tui_highlight_remove_one_of_many() {
    let mut handler = make_tui_handler();
    handler.call("tttt_tui_highlight", r#"{ "session_id": "pty-1", "id": "h1", "x": 0, "y": 0, "width": 5, "height": 1, "color": "red" }"#).unwrap();
    handler.call("tttt_tui_highlight", r#"{ "session_id": "pty-1", "id": "h2", "x": 10, "y": 0, "width": 5, "height": 1, "color": "blue" }"#).unwrap();
    handler.call("tttt_tui_highlight", r#"{ "session_id": "pty-1", "id": "h1", "color": "" }"#).unwrap();

    let highlights = Highlights(handler.tui_state());
    let list = highlights.get("pty-1").unwrap();
    assert_eq!(list.len(), 1);
    assert_eq!(list[0].id, "h2");
}

#[test]
fn test_tui_highlight_sets_dirty() {
    let mut handler = make_tui_handler();
    assert!(!handler.tui_state().dirty);
    handler.call("tttt_tui_highlight", r#"{ "session_id": "pty-1", "id": "h1", "x": 0, "y": 0, "width": 1, "height": 1, "color": "red" }"#).unwrap();
    assert!(handler.tui_state().dirty);
}
