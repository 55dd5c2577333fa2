//! The tools that work on terminals.
use serde_json::Value;
use tttt::backend::MockPty;
use tttt::manager::SessionManager;
use tttt::mcp::arguments::Arguments;
use tttt::mcp::composite::{AnyHandler, CompositeToolHandler};
use tttt::mcp::error::McpError;
use tttt::mcp::handler::{Step, ToolHandler};
use tttt::mcp::pty_handler::PtyToolHandler;
use tttt::mcp::scheduler_handler::SchedulerToolHandler;
use tttt::mcp::tools;
use tttt::mcp::tools::ToolDefinition;
use tttt::scheduler::Scheduler;
use tttt::session::PtySession;
use tttt::time::{Duration, Instant, Moment, UnixTime};

/// A client that waits for the answers of its calls.
trait Client {
    fn call(&mut self, name: &str, args: &str) -> Result<Value, McpError>;
}

impl<H: ToolHandler> Client for H {
    fn call(&mut self, name: &str, args: &str) -> Result<Value, McpError> {
        let mut moment = NOON;
        let mut step = self.handle_tool_call(name, &Arguments::read(args.as_bytes()), moment);
        loop {
            match step {
                Step::Done(Ok(reply)) => return Ok(serde_json::from_str(&reply).unwrap()),
                Step::Done(Err(e)) => return Err(e),
                Step::Wait { millis, task } => {
                    moment = later(moment, millis);
                    step = self.resume(task, moment);
                }
                other => panic!("unexpected step: {:?}", other),
            }
        }
    }
}

/// Noon on a day in November 2023.
const NOON: Moment = Moment {
    now: Instant { nanos: 5_000_000_000 },
    unix: UnixTime { secs: 1_700_049_600, nanos: 0 },
};

fn later(moment: Moment, millis: u64) -> Moment {
    let nanos = moment.unix.nanos as u64 + millis % 1_000 * 1_000_000;
    Moment {
        now: moment.now.plus(Duration::from_millis(millis)),
        unix: UnixTime {
            secs: moment.unix.secs + (millis / 1_000 + nanos / 1_000_000_000) as i64,
            nanos: (nanos % 1_000_000_000) as u32,
        },
    }
}

/// Starts a session on a device that only remembers.
trait Launcher {
    fn launch_mock(&mut self, args: &str) -> Result<Value, McpError>;
}

impl Launcher for PtyToolHandler<MockPty> {
    fn launch_mock(&mut self, args: &str) -> Result<Value, McpError> {
        match self.handle_pty_launch_mock(&Arguments::read(args.as_bytes()), NOON) {
            Step::Done(Ok(reply)) => Ok(serde_json::from_str(&reply).unwrap()),
            Step::Done(Err(e)) => Err(e),
            other => panic!("unexpected step: {:?}", other),
        }
    }
}

fn values(definitions: Vec<ToolDefinition>) -> Vec<Value> {
    definitions.iter().map(|d| serde_json::from_str(&d.to_json()).unwrap()).collect()
}

fn make_scheduler_handler() -> SchedulerToolHandler {
    SchedulerToolHandler::new_owned(Scheduler::new())
}

fn make_handler() -> PtyToolHandler<MockPty> {
    PtyToolHandler::new_owned(SessionManager::new(), "/tmp".to_string())
}

fn make_handler_with_session() -> PtyToolHandler<MockPty> {
    let mut handler = make_handler();
    handler.launch_mock(r#"{}"#).unwrap();
    handler
}

#[test]
fn test_pty_launch_mock() {
    let mut handler = make_handler();
    let result = handler.launch_mock(r#"{}"#).unwrap();
    assert!(result["session_id"].is_string());
    assert_eq!(handler.manager().session_count(), 1);
}

#[test]
fn test_pty_launch_custom_dims() {
    let mut handler = make_handler();
    let result = handler
        .launch_mock(r#"{"cols": 120, "rows": 40}"#)
        .unwrap();
    let id = result["session_id"].as_str().unwrap();
    let mgr = handler.manager();
    let session = mgr.get(id).unwrap();
    let meta = session.metadata();
    assert_eq!(meta.cols, 120);
    assert_eq!(meta.rows, 40);
}

#[test]
fn test_pty_list_empty() {
    let mut handler = make_handler();
    let result = handler.call("tttt_pty_list", "{}").unwrap();
    assert_eq!(result.as_array().unwrap().len(), 0);
}

#[test]
fn test_pty_list_with_sessions() {
    let mut handler = make_handler_with_session();
    let result = handler.call("tttt_pty_list", "{}").unwrap();
    assert_eq!(result.as_array().unwrap().len(), 1);
}

#[test]
fn test_pty_send_keys() {
    let mut handler = make_handler_with_session();
    let id = handler.manager().list()[0].id.clone();
    let result = handler.call(
        "tttt_pty_send_keys",
        &format!(r#"{{"session_id": "{}", "keys": "hello"}}"#, id),
    );
    assert!(result.is_ok());
}

#[test]
fn test_pty_send_keys_no_auto_enter() {
    // Verify that send_keys does NOT auto-append a newline;
    // callers must use explicit [ENTER] or \n.
    let mut handler = make_handler_with_session();
    let id = handler.manager().list()[0].id.clone();
    let result = handler.call(
        "tttt_pty_send_keys",
        &format!(r#"{{"session_id": "{}", "keys": "hello"}}"#, id),
    );
    assert!(result.is_ok());
}

#[test]
fn test_pty_send_keys_missing_session_id() {
    let mut handler = make_handler();
    let result = handler.call("tttt_pty_send_keys", r#"{"keys": "hello"}"#);
    assert!(result.is_err());
}

#[test]
fn test_pty_get_screen() {
    let mut handler = make_handler_with_session();
    let id = handler.manager().list()[0].id.clone();
    let result = handler
        .call("tttt_pty_get_screen", &format!(r#"{{"session_id": "{}"}}"#, id))
        .unwrap();
    assert!(result["screen"].is_string());
    assert!(result["cursor"].is_array());
}

#[test]
fn test_pty_kill() {
    let mut handler = make_handler_with_session();
    let id = handler.manager().list()[0].id.clone();
    handler
        .call("tttt_pty_kill", &format!(r#"{{"session_id": "{}"}}"#, id))
        .unwrap();
    assert_eq!(handler.manager().session_count(), 0);
}

#[test]
fn test_pty_get_cursor() {
    let mut handler = make_handler_with_session();
    let id = handler.manager().list()[0].id.clone();
    let result = handler
        .call("tttt_pty_get_cursor", &format!(r#"{{"session_id": "{}"}}"#, id))
        .unwrap();
    assert_eq!(result["row"], 0);
    assert_eq!(result["col"], 0);
}

#[test]
fn test_pty_resize() {
    let mut handler = make_handler_with_session();
    let id = handler.manager().list()[0].id.clone();
    handler
        .call("tttt_pty_resize", &format!(r#"{{"session_id": "{}", "cols": 100, "rows": 50}}"#, id))
        .unwrap();
    let mgr = handler.manager();
    let session = mgr.get(&id).unwrap();
    let meta = session.metadata();
    assert_eq!(meta.cols, 100);
    assert_eq!(meta.rows, 50);
}

#[test]
fn test_pty_set_scrollback() {
    let mut handler = make_handler_with_session();
    let id = handler.manager().list()[0].id.clone();
    handler
        .call("tttt_pty_set_scrollback", &format!(r#"{{"session_id": "{}", "lines": 5000}}"#, id))
        .unwrap();
}

#[test]
fn test_unknown_tool() {
    let mut handler = make_handler();
    let result = handler.call("nonexistent", r#"{}"#);
    assert!(matches!(result.unwrap_err(), McpError::ToolNotFound(_)));
}

#[test]
fn test_get_status_empty() {
    let mut handler = make_handler();
    let result = handler.call("tttt_get_status", r#"{}"#).unwrap();
    assert_eq!(result["sessions"].as_array().unwrap().len(), 0);
    assert_eq!(result["pending_reminders"], 0);
    assert_eq!(result["active_watchers"], 0);
}

#[test]
fn test_get_status_with_session() {
    let mut handler = make_handler_with_session();
    let id = handler.manager().list()[0].id.clone();
    // Queue some output
    {
        let mgr = handler.manager_mut();
        let session = mgr.get_mut(&id).unwrap();
        session.backend_mut().queue_output(b"hello world\r\n");
        session.pump().unwrap();
    }
    let result = handler.call("tttt_get_status", r#"{}"#).unwrap();
    let sessions = result["sessions"].as_array().unwrap();
    assert_eq!(sessions.len(), 1);
    let s = &sessions[0];
    assert_eq!(s["id"].as_str().unwrap(), id);
    assert_eq!(s["status"], "Running");
    assert_eq!(s["last_output_line"], "hello world");
    assert!(s["idle_seconds"].as_f64().unwrap() < 1.0);
}

#[test]
fn test_get_status_idle_seconds_present() {
    let mut handler = make_handler_with_session();
    let result = handler.call("tttt_get_status", r#"{}"#).unwrap();
    let sessions = result["sessions"].as_array().unwrap();
    assert!(sessions[0]["idle_seconds"].is_number());
}

#[test]
fn test_get_status_empty_screen_last_line() {
    let mut handler = make_handler_with_session();
    let result = handler.call("tttt_get_status", r#"{}"#).unwrap();
    let sessions = result["sessions"].as_array().unwrap();
    assert_eq!(sessions[0]["last_output_line"], "");
}

#[test]
fn test_pty_start_capture_returns_capture_id_and_file_path() {
    let mut handler = make_handler_with_session();
    let id = handler.manager().list()[0].id.clone();
    let result = handler
        .call("tttt_pty_start_capture", &format!(r#"{{"session_id": "{}"}}"#, id))
        .unwrap();
    assert!(result["capture_id"].is_string());
    let file_path = result["file_path"].as_str().unwrap();
    assert!(file_path.starts_with("/tmp/tttt-capture-"));
    assert!(file_path.ends_with(".raw"));
}

#[test]
fn test_pty_stop_capture_returns_file_path_and_bytes() {
    let mut handler = make_handler_with_session();
    let id = handler.manager().list()[0].id.clone();
    let start_result = handler
        .call("tttt_pty_start_capture", &format!(r#"{{"session_id": "{}"}}"#, id))
        .unwrap();
    let file_path = start_result["file_path"].as_str().unwrap().to_string();
    let stop_result = handler
        .call("tttt_pty_stop_capture", &format!(r#"{{"session_id": "{}"}}"#, id))
        .unwrap();
    assert_eq!(stop_result["file_path"].as_str().unwrap(), file_path);
    assert!(stop_result["bytes_written"].is_number());
}

#[test]
fn test_pty_start_capture_twice_returns_error() {
    let mut handler = make_handler_with_session();
    let id = handler.manager().list()[0].id.clone();
    let result1 = handler
        .call("tttt_pty_start_capture", &format!(r#"{{"session_id": "{}"}}"#, id))
        .unwrap();
    let file_path = result1["file_path"].as_str().unwrap().to_string();
    let result2 = handler.call("tttt_pty_start_capture", &format!(r#"{{"session_id": "{}"}}"#, id));
    assert!(result2.is_err());
}

#[test]
fn test_pty_stop_capture_without_start_returns_error() {
    let mut handler = make_handler_with_session();
    let id = handler.manager().list()[0].id.clone();
    let result = handler.call("tttt_pty_stop_capture", &format!(r#"{{"session_id": "{}"}}"#, id));
    assert!(result.is_err());
}

#[test]
fn test_pty_start_capture_missing_session_id() {
    let mut handler = make_handler();
    let result = handler.call("tttt_pty_start_capture", r#"{}"#);
    assert!(result.is_err());
}

#[test]
fn test_pty_stop_capture_missing_session_id() {
    let mut handler = make_handler();
    let result = handler.call("tttt_pty_stop_capture", r#"{}"#);
    assert!(result.is_err());
}

#[test]
fn test_composite_merges_definitions() {
    let mut composite = CompositeToolHandler::<MockPty>::new();
    let mut handler = make_handler();
    composite.add_handler(AnyHandler::Pty(handler));
    let defs = composite.tool_definitions();
    assert_eq!(defs.len(), 15);
}

#[test]
fn test_composite_dispatches() {
    let mut composite = CompositeToolHandler::<MockPty>::new();
    let mut handler = make_handler();
    composite.add_handler(AnyHandler::Pty(handler));
    let result = composite.call("tttt_pty_list", r#"{}"#);
    assert!(result.is_ok());
}

#[test]
fn test_composite_unknown_tool() {
    let mut composite = CompositeToolHandler::<MockPty>::new();
    let mut handler = make_handler();
    composite.add_handler(AnyHandler::Pty(handler));
    let result = composite.call("nonexistent", r#"{}"#);
    assert!(matches!(result.unwrap_err(), McpError::ToolNotFound(_)));
}

#[test]
fn test_pty_get_scrollback() {
    let mut handler = make_handler();
    handler.launch_mock(r#"{"cols": 80, "rows": 5}"#).unwrap();
    let id = handler.manager().list()[0].id.clone();

    // Queue output that overflows the 5-row screen
    {
        let mgr = handler.manager_mut();
        let session = mgr.get_mut(&id).unwrap();
        let mut output = String::new();
        for i in 0..15 {
            output.push_str(&format!("line {}\r\n", i));
        }
        session.send_raw(output.as_bytes()).unwrap();
    }

    let result = handler
        .call("tttt_pty_get_scrollback", &format!(r#"{{"session_id": "{}"}}"#, id))
        .unwrap();
    assert!(result["lines"].is_array(), "response should contain lines array");
}

#[test]
fn test_pty_get_scrollback_with_lines_param() {
    let mut handler = make_handler();
    handler.launch_mock(r#"{"cols": 80, "rows": 5}"#).unwrap();
    let id = handler.manager().list()[0].id.clone();

    {
        let mgr = handler.manager_mut();
        let session = mgr.get_mut(&id).unwrap();
        let mut output = String::new();
        for i in 0..15 {
            output.push_str(&format!("line {}\r\n", i));
        }
        session.send_raw(output.as_bytes()).unwrap();
    }

    let result = handler
        .call("tttt_pty_get_scrollback", &format!(r#"{{"session_id": "{}", "lines": 3}}"#, id))
        .unwrap();
    let lines = result["lines"].as_array().unwrap();
    assert!(lines.len() <= 3, "should return at most 3 lines");
}

/// What a handler does to its sessions is seen by whoever takes them over.
#[test]
fn test_shared_manager() {
    let mut shared: SessionManager<MockPty> = SessionManager::new();
    let mut handler = PtyToolHandler::new(SessionManager::new(), "/tmp".to_string());

    // Launch via handler
    handler.launch_mock(r#"{}"#).unwrap();
    assert_eq!(handler.manager().session_count(), 1);

    // Should be visible to the one who takes the sessions over
    std::mem::swap(handler.manager_mut(), &mut shared);
    assert_eq!(shared.session_count(), 1);

    // And to the handler when it has them back
    std::mem::swap(handler.manager_mut(), &mut shared);
    assert_eq!(handler.manager().session_count(), 1);
}

#[test]
fn test_composite_pty_and_scheduler() {
    let mut composite = CompositeToolHandler::<MockPty>::new();
    composite.add_handler(AnyHandler::Pty(make_handler()));
    composite.add_handler(AnyHandler::Scheduler(make_scheduler_handler()));

    // Should have 15 PTY + 4 scheduler = 19 tool definitions
    let defs = composite.tool_definitions();
    assert_eq!(defs.len(), 19);

    // PTY tool should work
    let result = composite.call("tttt_pty_list", r#"{}"#);
    assert!(result.is_ok());

    // Scheduler tool should work
    let result = composite.call(
        "tttt_cron_create",
        r#"{"expression": "10s", "command": "test"}"#,
    );
    assert!(result.is_ok());

    // Unknown tool should error
    let result = composite.call("nonexistent", r#"{}"#);
    assert!(matches!(result.unwrap_err(), McpError::ToolNotFound(_)));
}


#[test]
fn test_pty_wait_for_immediate_match() {
    let mut handler = make_handler();
    let id = {
        let mgr = handler.manager_mut();
        let id = mgr.generate_id();
        let mut mock = MockPty::new(80, 24);
        mock.queue_output(b"ready$ ");
        let mut session = PtySession::new(id.clone(), mock, "bash".to_string(), 80, 24);
        session.pump().unwrap();
        mgr.add_session(session).unwrap();
        id
    };

    let result = handler
        .call(
            "tttt_pty_wait_for",
            &format!(r#"{{"session_id": "{}", "pattern": "ready\\$", "timeout_ms": 1000}}"#, id),
        )
        .unwrap();
    assert_eq!(result["status"].as_str().unwrap(), "matched");
    assert!(result["screen"].is_string());
}

#[test]
fn test_pty_wait_for_timeout() {
    let mut handler = make_handler_with_session();
    let id = handler.manager().list()[0].id.clone();

    let result = handler.call(
        "tttt_pty_wait_for",
        &format!(r#"{{"session_id": "{}", "pattern": "never_matches", "timeout_ms": 200}}"#, id),
    );
    assert!(result.is_err(), "should error on timeout");
}

#[test]
fn test_pty_wait_for_invalid_regex() {
    let mut handler = make_handler_with_session();
    let id = handler.manager().list()[0].id.clone();

    let result = handler.call(
        "tttt_pty_wait_for",
        &format!(r#"{{"session_id": "{}", "pattern": "[invalid", "timeout_ms": 1000}}"#, id),
    );
    assert!(result.is_err(), "should error on invalid regex");
}

#[test]
fn test_pty_wait_for_missing_session() {
    let mut handler = make_handler();
    let result = handler.call(
        "tttt_pty_wait_for",
        r#"{"session_id": "nonexistent", "pattern": "foo", "timeout_ms": 200}"#,
    );
    assert!(result.is_err(), "should error on missing session");
}

#[test]
fn test_pty_wait_for_default_timeout() {
    // Call without timeout_ms, verify it parses (uses default 30000).
    // We use a pattern that matches immediately so we don't wait 30s.
    let mut handler = make_handler();
    let id = {
        let mgr = handler.manager_mut();
        let id = mgr.generate_id();
        let mut mock = MockPty::new(80, 24);
        mock.queue_output(b"prompt> ");
        let mut session = PtySession::new(id.clone(), mock, "bash".to_string(), 80, 24);
        session.pump().unwrap();
        mgr.add_session(session).unwrap();
        id
    };

    let result = handler
        .call(
            "tttt_pty_wait_for",
            &format!(r#"{{"session_id": "{}", "pattern": "prompt>"}}"#, id),
        )
        .unwrap();
    assert_eq!(result["status"].as_str().unwrap(), "matched");
}

#[test]
fn test_pty_wait_for_in_definitions() {
    let defs = values(tools::pty_tool_definitions());
    let wait_for = defs
        .iter()
        .find(|t| t["name"] == "tttt_pty_wait_for")
        .expect("tttt_pty_wait_for should be in pty_tool_definitions");
    let required = wait_for["inputSchema"]["required"].as_array().unwrap();
    assert!(required.contains(&Value::from("session_id")));
    assert!(required.contains(&Value::from("pattern")));
    // timeout_ms should NOT be required (it's optional)
    assert!(!required.contains(&Value::from("timeout_ms")));
}

#[test]
fn test_pty_wait_for_idle_missing_session_id() {
    let mut handler = make_handler();
    let result = handler.call("tttt_pty_wait_for_idle", r#"{}"#);
    assert!(result.is_err(), "should error when session_id is missing");
}

#[test]
fn test_pty_wait_for_idle_missing_session() {
    let mut handler = make_handler();
    let result = handler.call(
        "tttt_pty_wait_for_idle",
        r#"{"session_id": "nonexistent", "idle_seconds": 5.0, "timeout": 0.5}"#,
    );
    assert!(result.is_err(), "should error on missing session");
}

#[test]
fn test_pty_wait_for_idle_detects_idle_immediately() {
    // idle_seconds threshold of 0.0 is satisfied by any positive idle time
    let mut handler = make_handler_with_session();
    let id = handler.manager().list()[0].id.clone();
    let result = handler
        .call(
            "tttt_pty_wait_for_idle",
            &format!(r#"{{"session_id": "{}", "idle_seconds": 0.0, "timeout": 30.0}}"#, id),
        )
        .unwrap();
    assert_eq!(result["status"].as_str().unwrap(), "idle");
    assert!(result["idle_seconds"].as_f64().unwrap() >= 0.0);
    assert!(result["last_output_line"].is_string());
}

#[test]
fn test_pty_wait_for_idle_timeout() {
    let mut handler = make_handler_with_session();
    let id = handler.manager().list()[0].id.clone();
    let result = handler
        .call(
            "tttt_pty_wait_for_idle",
            &format!(r#"{{"session_id": "{}", "idle_seconds": 99999.0, "timeout": 0.5}}"#, id),
        )
        .unwrap();
    assert_eq!(result["status"].as_str().unwrap(), "timeout");
    assert!(result["idle_seconds"].as_f64().unwrap() < 99999.0);
    assert!(result["last_output_line"].is_string());
}

#[test]
fn test_pty_wait_for_idle_default_params() {
    // Verify optional params have defaults by checking the tool definition
    let defs = values(tools::pty_tool_definitions());
    let tool = defs
        .iter()
        .find(|t| t["name"] == "tttt_pty_wait_for_idle")
        .expect("tttt_pty_wait_for_idle should be in pty_tool_definitions");
    let required = tool["inputSchema"]["required"].as_array().unwrap();
    assert!(required.contains(&Value::from("session_id")));
    assert!(!required.contains(&Value::from("idle_seconds")));
    assert!(!required.contains(&Value::from("timeout")));
    assert!(!required.contains(&Value::from("ignore_pattern")));
}

#[test]
fn test_pty_wait_for_idle_ignore_pattern_in_tool_definition() {
    let defs = values(tools::pty_tool_definitions());
    let tool = defs
        .iter()
        .find(|t| t["name"] == "tttt_pty_wait_for_idle")
        .unwrap();
    assert!(
        tool["inputSchema"]["properties"]["ignore_pattern"].is_object(),
        "ignore_pattern should be a property"
    );
}

#[test]
fn test_pty_wait_for_idle_ignore_pattern_invalid_regex() {
    let mut handler = make_handler_with_session();
    let id = handler.manager().list()[0].id.clone();
    let result = handler.call(
        "tttt_pty_wait_for_idle",
        &format!(r#"{{"session_id": "{}", "idle_seconds": 0.0, "timeout": 5.0, "ignore_pattern": "[invalid"}}"#, id),
    );
    assert!(result.is_err(), "invalid ignore_pattern should return error");
}

#[test]
fn test_pty_wait_for_idle_ignore_pattern_detects_idle_when_hash_stable() {
    // Static output: hash never changes, so idle is detected immediately
    let mut handler = make_handler_with_session();
    let id = handler.manager().list()[0].id.clone();
    let result = handler
        .call(
            "tttt_pty_wait_for_idle",
            &format!(r#"{{"session_id": "{}", "idle_seconds": 0.0, "timeout": 10.0, "ignore_pattern": "\\d{{2}}:\\d{{2}}:\\d{{2}}"}}"#, id),
        )
        .unwrap();
    assert_eq!(result["status"].as_str().unwrap(), "idle");
    assert!(result["idle_seconds"].as_f64().unwrap() >= 0.0);
}

#[test]
fn test_pty_wait_for_idle_ignore_pattern_timeout() {
    // Require 99999 stable seconds — must time out
    let mut handler = make_handler_with_session();
    let id = handler.manager().list()[0].id.clone();
    let result = handler
        .call(
            "tttt_pty_wait_for_idle",
            &format!(r#"{{"session_id": "{}", "idle_seconds": 99999.0, "timeout": 0.5, "ignore_pattern": "\\d{{2}}:\\d{{2}}:\\d{{2}}"}}"#, id),
        )
        .unwrap();
    assert_eq!(result["status"].as_str().unwrap(), "timeout");
}

#[test]
fn test_pty_wait_for_idle_ignore_pattern_strips_changing_parts() {
    // The session screen is static; the pattern matches part of it, but stripped hash
    // is also stable → should detect idle with ignore_pattern present.
    let mut handler = make_handler();
    let id = {
        let mgr = handler.manager_mut();
        let id = mgr.generate_id();
        let mut mock = MockPty::new(80, 24);
        mock.queue_output(b"status: 12:34:56 ready");
        let mut session = PtySession::new(id.clone(), mock, "bash".to_string(), 80, 24);
        session.pump().unwrap();
        mgr.add_session(session).unwrap();
        id
    };
    let result = handler
        .call(
            "tttt_pty_wait_for_idle",
            &format!(r#"{{"session_id": "{}", "idle_seconds": 0.0, "timeout": 10.0, "ignore_pattern": "\\d{{2}}:\\d{{2}}:\\d{{2}}"}}"#, id),
        )
        .unwrap();
    assert_eq!(result["status"].as_str().unwrap(), "idle");
}

#[test]
fn test_pty_launch_with_name() {
    let mut handler = make_handler();
    let result = handler.launch_mock(r#"{"name": "mysession"}"#).unwrap();
    assert!(result["session_id"].is_string());
    assert_eq!(result["name"].as_str().unwrap(), "mysession");
}

#[test]
fn test_pty_launch_duplicate_name() {
    let mut handler = make_handler();
    handler.launch_mock(r#"{"name": "mysession"}"#).unwrap();
    let result = handler.launch_mock(r#"{"name": "mysession"}"#);
    assert!(result.is_err());
}

#[test]
fn test_pty_get_screen_by_name() {
    let mut handler = make_handler();
    handler.launch_mock(r#"{"name": "mysession"}"#).unwrap();
    let result = handler
        .call("tttt_pty_get_screen", r#"{"session_id": "mysession"}"#)
        .unwrap();
    assert!(result["screen"].is_string());
}

#[test]
fn test_handle_rate_limit_no_dialog() {
    let mut handler = make_handler_with_session();
    let id = handler.manager().list()[0].id.clone();
    let result = handler
        .call(
            "tttt_pty_handle_rate_limit",
            &format!(r#"{{"session_id": "{}"}}"#, id),
        )
        .unwrap();
    assert_eq!(result["status"], "no_rate_limit");
}


#[test]
fn test_pty_launch_mock_without_sqlite_logger() {
    // Without sqlite_logger, launch should still succeed
    let mut handler = make_handler();
    let result = handler.launch_mock(r#"{}"#).unwrap();
    assert!(result["session_id"].is_string());
}
