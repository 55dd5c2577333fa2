//! The tools that look into a log.
use serde_json::Value;
use tttt::event::{Direction, LogEvent, SessionInfo};
use tttt::mcp::arguments::Arguments;
use tttt::mcp::error::McpError;
use tttt::mcp::handler::{Query, Step, ToolHandler};
use tttt::mcp::replay_handler::ReplayToolHandler;
use tttt::mcp::tools::ToolDefinition;
use tttt::time::{Instant, Moment, UnixTime};

fn values(definitions: Vec<ToolDefinition>) -> Vec<Value> {
    definitions.iter().map(|d| serde_json::from_str(&d.to_json()).unwrap()).collect()
}

/// A handler over what was recorded of at most one session.
struct Log {
    handler: ReplayToolHandler,
    recorded: bool,
}

impl Log {
    fn sessions(&self) -> Vec<SessionInfo> {
        if !self.recorded {
            return Vec::new();
        }
        vec![SessionInfo {
            session_id: "s1".to_string(),
            command: "bash".to_string(),
            cols: 80,
            rows: 24,
            started_at_ms: 50,
            ended_at_ms: Some(400),
            name: Some("test session".to_string()),
        }]
    }

    fn events(&self, session_id: &str) -> Vec<LogEvent> {
        if !self.recorded || session_id != "s1" {
            return Vec::new();
        }
        vec![
            LogEvent::with_timestamp(100, "s1".to_string(), Direction::Output, b"hello".to_vec()),
            LogEvent::with_timestamp(200, "s1".to_string(), Direction::Output, b" world".to_vec()),
            LogEvent::with_timestamp(300, "s1".to_string(), Direction::Input, b"typed".to_vec()),
        ]
    }

    fn call(&mut self, name: &str, args: &str) -> Result<Value, McpError> {
        let moment = Moment {
            now: Instant { nanos: 0 },
            unix: UnixTime { secs: 1_700_049_600, nanos: 0 },
        };
        let mut step = self.handler.handle_tool_call(name, &Arguments::read(args.as_bytes()), moment);
        if let Step::Read(query) = step {
            step = match query {
                Query::Sessions => self.handler.sessions_read(&self.sessions()),
                Query::Screen { session_id, event_index, timestamp_ms } => {
                    let info = self.sessions().into_iter().find(|s| s.session_id == session_id);
                    let events = self.events(&session_id);
                    self.handler.screen_read(&session_id, event_index, timestamp_ms, info, events)
                }
                Query::Timeline { session_id } => self.handler.timeline_read(self.events(&session_id)),
            };
        }
        match step {
            Step::Done(Ok(reply)) => Ok(serde_json::from_str(&reply).unwrap()),
            Step::Done(Err(e)) => Err(e),
            other => panic!("unexpected step: {:?}", other),
        }
    }
}

fn make_replay_db() -> Log {
    Log { handler: ReplayToolHandler::new("test.db".to_string()), recorded: true }
}

fn make_empty_db() -> Log {
    Log { handler: ReplayToolHandler::new("test.db".to_string()), recorded: false }
}

#[test]
fn test_replay_list_sessions_empty() {
    let mut handler = make_empty_db();
    let result = handler.call("tttt_replay_list_sessions", r#"{}"#).unwrap();
    assert_eq!(result["sessions"].as_array().unwrap().len(), 0);
}

#[test]
fn test_replay_list_sessions_with_data() {
    let mut handler = make_replay_db();
    let result = handler.call("tttt_replay_list_sessions", r#"{}"#).unwrap();
    let sessions = result["sessions"].as_array().unwrap();
    assert_eq!(sessions.len(), 1);
    assert_eq!(sessions[0]["session_id"], "s1");
    assert_eq!(sessions[0]["command"], "bash");
    assert_eq!(sessions[0]["name"], "test session");
}

#[test]
fn test_replay_get_screen_end() {
    let mut handler = make_replay_db();
    let result = handler
        .call("tttt_replay_get_screen", r#"{"session_id": "s1"}"#)
        .unwrap();
    let screen = result["screen"].as_str().unwrap();
    assert!(screen.contains("hello world"), "screen: {:?}", screen);
    assert_eq!(result["event_index"], 3); // all 3 events processed
}

#[test]
fn test_replay_get_screen_at_event_index() {
    let mut handler = make_replay_db();
    let result = handler
        .call("tttt_replay_get_screen", r#"{"session_id": "s1", "event_index": 1}"#)
        .unwrap();
    let screen = result["screen"].as_str().unwrap();
    assert!(screen.contains("hello"), "screen: {:?}", screen);
    assert!(!screen.contains("world"), "screen should not have world yet");
    assert_eq!(result["event_index"], 1);
}

#[test]
fn test_replay_get_screen_at_timestamp() {
    let mut handler = make_replay_db();
    let result = handler
        .call("tttt_replay_get_screen", r#"{"session_id": "s1", "timestamp_ms": 100}"#)
        .unwrap();
    let screen = result["screen"].as_str().unwrap();
    assert!(screen.contains("hello"));
    assert!(!screen.contains("world"));
    assert_eq!(result["timestamp_ms"], 100u64);
}

#[test]
fn test_replay_get_screen_returns_cursor() {
    let mut handler = make_replay_db();
    let result = handler
        .call("tttt_replay_get_screen", r#"{"session_id": "s1"}"#)
        .unwrap();
    assert!(result["cursor"].is_array());
    let cursor = result["cursor"].as_array().unwrap();
    assert_eq!(cursor.len(), 2);
}

#[test]
fn test_replay_get_screen_missing_session_id() {
    let mut handler = make_empty_db();
    let result = handler.call("tttt_replay_get_screen", r#"{}"#);
    assert!(result.is_err());
}

#[test]
fn test_replay_get_screen_unknown_session() {
    let mut handler = make_empty_db();
    let result = handler.call("tttt_replay_get_screen", r#"{"session_id": "nope"}"#);
    assert!(result.is_err());
}

#[test]
fn test_replay_get_timeline() {
    let mut handler = make_replay_db();
    let result = handler
        .call("tttt_replay_get_timeline", r#"{"session_id": "s1"}"#)
        .unwrap();
    let timeline = result["timeline"].as_array().unwrap();
    assert_eq!(timeline.len(), 3);
    assert_eq!(timeline[0]["index"], 0);
    assert_eq!(timeline[0]["timestamp_ms"], 100u64);
    assert_eq!(timeline[0]["direction"], "output");
    assert_eq!(timeline[2]["direction"], "input");
}

#[test]
fn test_replay_get_timeline_missing_session_id() {
    let mut handler = make_empty_db();
    let result = handler.call("tttt_replay_get_timeline", r#"{}"#);
    assert!(result.is_err());
}

#[test]
fn test_replay_tool_definitions_count() {
    let handler = make_empty_db();
    let defs = values(handler.handler.tool_definitions());
    assert_eq!(defs.len(), 3);
}

#[test]
fn test_replay_tool_definitions_names() {
    let handler = make_empty_db();
    let defs = values(handler.handler.tool_definitions());
    let names: Vec<&str> = defs.iter().map(|t| t["name"].as_str().unwrap()).collect();
    assert!(names.contains(&"tttt_replay_list_sessions"));
    assert!(names.contains(&"tttt_replay_get_screen"));
    assert!(names.contains(&"tttt_replay_get_timeline"));
}

#[test]
fn test_replay_unknown_tool() {
    let mut handler = make_empty_db();
    let result = handler.call("nonexistent_tool", r#"{}"#);
    assert!(matches!(result.unwrap_err(), McpError::ToolNotFound(_)));
}
