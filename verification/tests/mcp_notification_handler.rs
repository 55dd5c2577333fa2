//! The tools that watch screens.
use serde_json::Value;
use tttt::backend::MockPty;
use tttt::manager::SessionManager;
use tttt::mcp::arguments::Arguments;
use tttt::mcp::error::McpError;
use tttt::mcp::handler::{Step, ToolHandler};
use tttt::mcp::notification_handler::NotificationToolHandler;
use tttt::notification::NotificationRegistry;
use tttt::session::PtySession;
use tttt::time::{Duration, Instant, Moment, UnixTime};

/// A client that waits for the answers of its calls.
trait Client {
    fn call(&mut self, name: &str, args: &str) -> Result<Value, McpError>;
}

impl<H: ToolHandler> Client for H {
    fn call(&mut self, name: &str, args: &str) -> Result<Value, McpError> {
        let mut moment = NOON;
        let mut step = self.handle_tool_call(name, &Arguments::read(args.as_bytes()), moment);
        loop {
            match step {
                Step::Done(Ok(reply)) => return Ok(serde_json::from_str(&reply).unwrap()),
                Step::Done(Err(e)) => return Err(e),
                Step::Wait { millis, task } => {
                    moment = later(moment, millis);
                    step = self.resume(task, moment);
                }
                other => panic!("unexpected step: {:?}", other),
            }
        }
    }
}

/// Noon on a day in November 2023.
const NOON: Moment = Moment {
    now: Instant { nanos: 5_000_000_000 },
    unix: UnixTime { secs: 1_700_049_600, nanos: 0 },
};

fn later(moment: Moment, millis: u64) -> Moment {
    let nanos = moment.unix.nanos as u64 + millis % 1_000 * 1_000_000;
    Moment {
        now: moment.now.plus(Duration::from_millis(millis)),
        unix: UnixTime {
            secs: moment.unix.secs + (millis / 1_000 + nanos / 1_000_000_000) as i64,
            nanos: (nanos % 1_000_000_000) as u32,
        },
    }
}

fn make_notification_handler() -> NotificationToolHandler<MockPty> {
    let sessions = SessionManager::<MockPty>::new();
    let registry = NotificationRegistry::new();
    NotificationToolHandler::new(registry, sessions)
}

#[test]
fn test_notify_on_prompt() {
    let mut handler = make_notification_handler();
    let result = handler
        .call(
            "tttt_notify_on_prompt",
            r#"{ "watch_session_id": "pty-1", "pattern": "❯\\s*$", "inject_text": "[DONE] Executor finished", "inject_session_id": "root" }"#,
        )
        .unwrap();
    assert!(result["watcher_id"].is_string());
}

#[test]
fn test_notify_on_pattern() {
    let mut handler = make_notification_handler();
    let result = handler
        .call(
            "tttt_notify_on_pattern",
            r#"{ "watch_session_id": "pty-1", "pattern": "error", "inject_text": "[ALERT] Error detected", "inject_session_id": "root" }"#,
        )
        .unwrap();
    assert!(result["watcher_id"].is_string());
}

#[test]
fn test_notify_invalid_regex() {
    let mut handler = make_notification_handler();
    let result = handler.call(
        "tttt_notify_on_prompt",
        r#"{ "watch_session_id": "pty-1", "pattern": "[invalid", "inject_text": "x", "inject_session_id": "root" }"#,
    );
    assert!(result.is_err());
}

#[test]
fn test_notify_list() {
    let mut handler = make_notification_handler();
    handler
        .call(
            "tttt_notify_on_prompt",
            r#"{ "watch_session_id": "pty-1", "pattern": "a", "inject_text": "x", "inject_session_id": "root" }"#,
        )
        .unwrap();
    handler
        .call(
            "tttt_notify_on_pattern",
            r#"{ "watch_session_id": "pty-2", "pattern": "b", "inject_text": "y", "inject_session_id": "root" }"#,
        )
        .unwrap();

    let result = handler.call("tttt_notify_list", r#"{}"#).unwrap();
    let watchers = result.as_array().unwrap();
    assert_eq!(watchers.len(), 2);
}

#[test]
fn test_notify_cancel() {
    let mut handler = make_notification_handler();
    let result = handler
        .call(
            "tttt_notify_on_prompt",
            r#"{ "watch_session_id": "pty-1", "pattern": "a", "inject_text": "x", "inject_session_id": "root" }"#,
        )
        .unwrap();
    let watcher_id = result["watcher_id"].as_str().unwrap();

    handler
        .call("tttt_notify_cancel", &format!(r#"{{"watcher_id": "{}"}}"#, watcher_id))
        .unwrap();

    let list = handler.call("tttt_notify_list", r#"{}"#).unwrap();
    assert_eq!(list.as_array().unwrap().len(), 0);
}

#[test]
fn test_notify_cancel_nonexistent() {
    let mut handler = make_notification_handler();
    let result = handler.call("tttt_notify_cancel", r#"{"watcher_id": "nope"}"#);
    assert!(result.is_err());
}

#[test]
fn test_self_inject_missing_session() {
    let mut handler = make_notification_handler();
    let result = handler.call(
        "tttt_self_inject",
        r#"{"session_id": "nonexistent", "text": "hello"}"#,
    );
    assert!(result.is_err());
}

fn make_notification_handler_with_session() -> (NotificationToolHandler<MockPty>, String) {
    let mut sessions = SessionManager::<MockPty>::new();
    let registry = NotificationRegistry::new();
    let id = {
        let mgr = &mut sessions;
        let id = mgr.generate_id();
        let mock = MockPty::new(80, 24);
        let session = PtySession::new(id.clone(), mock, "bash".to_string(), 80, 24);
        mgr.add_session(session).unwrap();
        id
    };
    (NotificationToolHandler::new(registry, sessions), id)
}

#[test]
fn test_self_inject_appends_cr() {
    // Verify that self_inject always appends \r for auto-submit.
    let (mut handler, id) = make_notification_handler_with_session();
    handler
        .call(
            "tttt_self_inject",
            &format!(r#"{{"session_id": "{}", "text": "hello"}}"#, id),
        )
        .unwrap();

    // Inspect what was written to the MockPty
    let sessions = handler.sessions();
    let session = sessions.get(&id).unwrap();
    let backend = session.backend();
    assert!(
        backend.input_buf.ends_with(b"\r"),
        "self_inject should auto-append \\r, got: {:?}",
        String::from_utf8_lossy(&backend.input_buf)
    );
    assert_eq!(backend.input_buf, b"hello\r");
}

#[test]
fn test_self_inject_does_not_double_cr() {
    // If text already ends with \r, don't add another.
    let (mut handler, id) = make_notification_handler_with_session();
    handler
        .call(
            "tttt_self_inject",
            &format!(r#"{{"session_id": "{}", "text": "world\r"}}"#, id),
        )
        .unwrap();

    let sessions = handler.sessions();
    let session = sessions.get(&id).unwrap();
    let backend = session.backend();
    assert_eq!(
        backend.input_buf, b"world\r",
        "should not double the \\r"
    );
}
