//! The tools for messages in the sidebar.
use serde_json::Value;
use tttt::mcp::arguments::Arguments;
use tttt::mcp::error::McpError;
use tttt::mcp::handler::{Step, ToolHandler};
use tttt::mcp::sidebar_handler::SidebarMessageToolHandler;
use tttt::mcp::tools::ToolDefinition;
use tttt::time::{Duration, Instant, Moment, UnixTime};

/// A client that waits for the answers of its calls.
trait Client {
    fn call(&mut self, name: &str, args: &str) -> Result<Value, McpError>;
}

impl<H: ToolHandler> Client for H {
    fn call(&mut self, name: &str, args: &str) -> Result<Value, McpError> {
        let mut moment = NOON;
        let mut step = self.handle_tool_call(name, &Arguments::read(args.as_bytes()), moment);
        loop {
            match step {
                Step::Done(Ok(reply)) => return Ok(serde_json::from_str(&reply).unwrap()),
                Step::Done(Err(e)) => return Err(e),
                Step::Wait { millis, task } => {
                    moment = later(moment, millis);
                    step = self.resume(task, moment);
                }
                other => panic!("unexpected step: {:?}", other),
            }
        }
    }
}

/// Noon on a day in November 2023.
const NOON: Moment = Moment {
    now: Instant { nanos: 5_000_000_000 },
    unix: UnixTime { secs: 1_700_049_600, nanos: 0 },
};

fn later(moment: Moment, millis: u64) -> Moment {
    let nanos = moment.unix.nanos as u64 + millis % 1_000 * 1_000_000;
    Moment {
        now: moment.now.plus(Duration::from_millis(millis)),
        unix: UnixTime {
            secs: moment.unix.secs + (millis / 1_000 + nanos / 1_000_000_000) as i64,
            nanos: (nanos % 1_000_000_000) as u32,
        },
    }
}

fn values(definitions: Vec<ToolDefinition>) -> Vec<Value> {
    definitions.iter().map(|d| serde_json::from_str(&d.to_json()).unwrap()).collect()
}

fn json(text: &str) -> Value {
    serde_json::from_str(text).unwrap()
}

fn make_sidebar_handler() -> SidebarMessageToolHandler {
    SidebarMessageToolHandler::new(Vec::new(), false)
}

#[test]
fn test_sidebar_message_add() {
    let mut handler = make_sidebar_handler();
    let result = handler.call("tttt_sidebar_message", r#"{"message": "hello"}"#).unwrap();
    assert_eq!(result["status"], "ok");
    assert_eq!(result["count"], 1);
}

#[test]
fn test_sidebar_message_caps_at_10() {
    let mut handler = make_sidebar_handler();
    for i in 0..11 {
        handler.call("tttt_sidebar_message", &format!(r#"{{"message": "msg {}"}}"#, i)).unwrap();
    }
    let msgs = handler.messages();
    assert_eq!(msgs.len(), 10);
    // Oldest (msg 0) should have been dropped; newest should be msg 10
    assert_eq!(msgs[9], "msg 10");
    assert_eq!(msgs[0], "msg 1");
}

#[test]
fn test_sidebar_message_clear() {
    let mut handler = make_sidebar_handler();
    handler.call("tttt_sidebar_message", r#"{"message": "hello"}"#).unwrap();
    let result = handler.call("tttt_sidebar_message", r#"{"clear": true}"#).unwrap();
    assert_eq!(result["status"], "ok");
    assert_eq!(result["count"], 0);
    assert!(handler.messages().is_empty());
}

#[test]
fn test_sidebar_message_missing_message_errors() {
    let mut handler = make_sidebar_handler();
    let result = handler.call("tttt_sidebar_message", r#"{}"#);
    assert!(result.is_err());
}

#[test]
fn test_sidebar_tool_definitions() {
    let mut handler = make_sidebar_handler();
    let defs = values(handler.tool_definitions());
    assert_eq!(defs.len(), 2);
    assert!(defs.iter().any(|d| d["name"] == "tttt_sidebar_message"));
    assert!(defs.iter().any(|d| d["name"] == "tttt_sidebar_list"));
}

#[test]
fn test_sidebar_list_empty() {
    let mut handler = make_sidebar_handler();
    let result = handler.call("tttt_sidebar_list", r#"{}"#).unwrap();
    assert_eq!(result["messages"], json(r#"[]"#));
}

#[test]
fn test_sidebar_list_returns_messages() {
    let mut handler = make_sidebar_handler();
    handler.call("tttt_sidebar_message", r#"{"message": "alpha"}"#).unwrap();
    handler.call("tttt_sidebar_message", r#"{"message": "beta"}"#).unwrap();
    let result = handler.call("tttt_sidebar_list", r#"{}"#).unwrap();
    assert_eq!(result["messages"], json(r#"["alpha", "beta"]"#));
}

#[test]
fn test_sidebar_list_after_clear() {
    let mut handler = make_sidebar_handler();
    handler.call("tttt_sidebar_message", r#"{"message": "hello"}"#).unwrap();
    handler.call("tttt_sidebar_message", r#"{"clear": true}"#).unwrap();
    let result = handler.call("tttt_sidebar_list", r#"{}"#).unwrap();
    assert_eq!(result["messages"], json(r#"[]"#));
}

#[test]
fn test_sidebar_dirty_flag_set_on_add() {
    let mut handler = make_sidebar_handler();
    assert!(!handler.take_dirty());
    handler.call("tttt_sidebar_message", r#"{"message": "hello"}"#).unwrap();
    assert!(handler.take_dirty());
}

#[test]
fn test_sidebar_dirty_flag_set_on_clear() {
    let mut handler = make_sidebar_handler();
    handler.call("tttt_sidebar_message", r#"{"message": "hello"}"#).unwrap();
    handler.take_dirty();
    handler.call("tttt_sidebar_message", r#"{"clear": true}"#).unwrap();
    assert!(handler.take_dirty());
}

#[test]
fn test_sidebar_dirty_flag_not_set_on_list() {
    let mut handler = make_sidebar_handler();
    handler.call("tttt_sidebar_message", r#"{"message": "hello"}"#).unwrap();
    handler.take_dirty();
    handler.call("tttt_sidebar_list", r#"{}"#).unwrap();
    assert!(!handler.take_dirty());
}

#[test]
fn test_sidebar_dirty_flag_resettable() {
    let mut handler = make_sidebar_handler();
    handler.call("tttt_sidebar_message", r#"{"message": "a"}"#).unwrap();
    assert!(handler.take_dirty());
    // Simulate main loop consuming the flag
    assert!(!handler.take_dirty());
    // Second message sets it again
    handler.call("tttt_sidebar_message", r#"{"message": "b"}"#).unwrap();
    assert!(handler.take_dirty());
}
