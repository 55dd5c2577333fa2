//! The tools for notes.
use serde_json::Value;
use tttt::mcp::arguments::Arguments;
use tttt::mcp::error::McpError;
use tttt::mcp::handler::{Step, ToolHandler};
use tttt::mcp::scratchpad_handler::{Note, ScratchpadToolHandler};
use tttt::time::{Duration, Instant, Moment, UnixTime};

/// A client that waits for the answers of its calls.
trait Client {
    fn call(&mut self, name: &str, args: &str) -> Result<Value, McpError>;
}

impl<H: ToolHandler> Client for H {
    fn call(&mut self, name: &str, args: &str) -> Result<Value, McpError> {
        let mut moment = NOON;
        let mut step = self.handle_tool_call(name, &Arguments::read(args.as_bytes()), moment);
        loop {
            match step {
                Step::Done(Ok(reply)) => return Ok(serde_json::from_str(&reply).unwrap()),
                Step::Done(Err(e)) => return Err(e),
                Step::Wait { millis, task } => {
                    moment = later(moment, millis);
                    step = self.resume(task, moment);
                }
                other => panic!("unexpected step: {:?}", other),
            }
        }
    }
}

/// Noon on a day in November 2023.
const NOON: Moment = Moment {
    now: Instant { nanos: 5_000_000_000 },
    unix: UnixTime { secs: 1_700_049_600, nanos: 0 },
};

fn later(moment: Moment, millis: u64) -> Moment {
    let nanos = moment.unix.nanos as u64 + millis % 1_000 * 1_000_000;
    Moment {
        now: moment.now.plus(Duration::from_millis(millis)),
        unix: UnixTime {
            secs: moment.unix.secs + (millis / 1_000 + nanos / 1_000_000_000) as i64,
            nanos: (nanos % 1_000_000_000) as u32,
        },
    }
}

fn note(key: &str, content: &str) -> Note {
    Note { key: key.to_string(), content: content.to_string() }
}

fn make_scratchpad_handler() -> ScratchpadToolHandler {
    ScratchpadToolHandler::new()
}

#[test]
fn test_scratchpad_write_and_read() {
    let mut handler = make_scratchpad_handler();
    handler
        .call(
            "tttt_scratchpad_write",
            r#"{"key": "notes", "content": "hello world"}"#,
        )
        .unwrap();
    let result = handler
        .call("tttt_scratchpad_read", r#"{"key": "notes"}"#)
        .unwrap();
    assert_eq!(result["content"].as_str().unwrap(), "hello world");
}

#[test]
fn test_scratchpad_write_overwrites() {
    let mut handler = make_scratchpad_handler();
    handler
        .call(
            "tttt_scratchpad_write",
            r#"{"key": "k", "content": "first"}"#,
        )
        .unwrap();
    handler
        .call(
            "tttt_scratchpad_write",
            r#"{"key": "k", "content": "second"}"#,
        )
        .unwrap();
    let result = handler
        .call("tttt_scratchpad_read", r#"{"key": "k"}"#)
        .unwrap();
    assert_eq!(result["content"].as_str().unwrap(), "second");
}

#[test]
fn test_scratchpad_append() {
    let mut handler = make_scratchpad_handler();
    handler
        .call(
            "tttt_scratchpad_write",
            r#"{"key": "log", "content": "line1\n"}"#,
        )
        .unwrap();
    handler
        .call(
            "tttt_scratchpad_write",
            r#"{"key": "log", "content": "line2\n", "append": true}"#,
        )
        .unwrap();
    let result = handler
        .call("tttt_scratchpad_read", r#"{"key": "log"}"#)
        .unwrap();
    assert_eq!(result["content"].as_str().unwrap(), "line1\nline2\n");
}

#[test]
fn test_scratchpad_read_missing_key() {
    let mut handler = make_scratchpad_handler();
    let result = handler.call("tttt_scratchpad_read", r#"{"key": "nope"}"#);
    assert!(result.is_err());
}

#[test]
fn test_scratchpad_shared_store_visible_across_handlers() {
    let mut writer = ScratchpadToolHandler::new_shared(Vec::new());
    writer
        .call(
            "tttt_scratchpad_write",
            r#"{"key": "x", "content": "shared_value"}"#,
        )
        .unwrap();

    let kept = writer.store().iter().map(|n| note(&n.key, &n.content)).collect();
    let mut reader = ScratchpadToolHandler::new_shared(kept);
    let result = reader
        .call("tttt_scratchpad_read", r#"{"key": "x"}"#)
        .unwrap();
    assert_eq!(result["content"].as_str().unwrap(), "shared_value");
}

#[test]
fn test_scratchpad_restore_from_saved_data() {
    let pre_existing = vec![note("restored_key", "restored_value")];
    let mut handler = ScratchpadToolHandler::new_shared(pre_existing);

    let result = handler
        .call("tttt_scratchpad_read", r#"{"key": "restored_key"}"#)
        .unwrap();
    assert_eq!(result["content"].as_str().unwrap(), "restored_value");
}
