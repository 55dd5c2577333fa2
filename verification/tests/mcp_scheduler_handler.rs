//! The tools for reminders and recurring jobs.
use serde_json::Value;
use tttt::mcp::arguments::Arguments;
use tttt::mcp::error::McpError;
use tttt::mcp::handler::{Step, ToolHandler};
use tttt::mcp::scheduler_handler::SchedulerToolHandler;
use tttt::scheduler::Scheduler;
use tttt::time::{Duration, Instant, Moment, UnixTime};

/// A client that waits for the answers of its calls.
trait Client {
    fn call(&mut self, name: &str, args: &str) -> Result<Value, McpError>;
}

impl<H: ToolHandler> Client for H {
    fn call(&mut self, name: &str, args: &str) -> Result<Value, McpError> {
        let mut moment = NOON;
        let mut step = self.handle_tool_call(name, &Arguments::read(args.as_bytes()), moment);
        loop {
            match step {
                Step::Done(Ok(reply)) => return Ok(serde_json::from_str(&reply).unwrap()),
                Step::Done(Err(e)) => return Err(e),
                Step::Wait { millis, task } => {
                    moment = later(moment, millis);
                    step = self.resume(task, moment);
                }
                other => panic!("unexpected step: {:?}", other),
            }
        }
    }
}

/// Noon on a day in November 2023.
const NOON: Moment = Moment {
    now: Instant { nanos: 5_000_000_000 },
    unix: UnixTime { secs: 1_700_049_600, nanos: 0 },
};

fn later(moment: Moment, millis: u64) -> Moment {
    let nanos = moment.unix.nanos as u64 + millis % 1_000 * 1_000_000;
    Moment {
        now: moment.now.plus(Duration::from_millis(millis)),
        unix: UnixTime {
            secs: moment.unix.secs + (millis / 1_000 + nanos / 1_000_000_000) as i64,
            nanos: (nanos % 1_000_000_000) as u32,
        },
    }
}

fn make_scheduler_handler() -> SchedulerToolHandler {
    SchedulerToolHandler::new_owned(Scheduler::new())
}

#[test]
fn test_scheduler_reminder_set() {
    let mut handler = make_scheduler_handler();
    let result = handler
        .call(
            "tttt_reminder_set",
            r#"{"message": "test reminder", "delay_seconds": 60}"#,
        )
        .unwrap();
    assert!(result["reminder_id"].is_string());
    assert_eq!(
        handler.scheduler().reminder_count(),
        1
    );
}

#[test]
fn test_scheduler_cron_create() {
    let mut handler = make_scheduler_handler();
    let result = handler
        .call(
            "tttt_cron_create",
            r#"{"expression": "10s", "command": "echo hello"}"#,
        )
        .unwrap();
    assert!(result["job_id"].is_string());
    assert_eq!(handler.scheduler().cron_count(), 1);
}

#[test]
fn test_scheduler_cron_create_invalid() {
    let mut handler = make_scheduler_handler();
    let result = handler.call(
        "tttt_cron_create",
        r#"{"expression": "invalid!!!", "command": "x"}"#,
    );
    assert!(result.is_err());
}

#[test]
fn test_scheduler_cron_list() {
    let mut handler = make_scheduler_handler();
    handler
        .call(
            "tttt_cron_create",
            r#"{"expression": "10s", "command": "a"}"#,
        )
        .unwrap();
    handler
        .call(
            "tttt_cron_create",
            r#"{"expression": "20s", "command": "b"}"#,
        )
        .unwrap();

    let result = handler.call("tttt_cron_list", r#"{}"#).unwrap();
    let jobs = result.as_array().unwrap();
    assert_eq!(jobs.len(), 2);
}

#[test]
fn test_scheduler_cron_delete() {
    let mut handler = make_scheduler_handler();
    let create_result = handler
        .call(
            "tttt_cron_create",
            r#"{"expression": "10s", "command": "x"}"#,
        )
        .unwrap();
    let job_id = create_result["job_id"].as_str().unwrap();

    handler
        .call("tttt_cron_delete", &format!(r#"{{"job_id": "{}"}}"#, job_id))
        .unwrap();
    assert_eq!(handler.scheduler().cron_count(), 0);
}

#[test]
fn test_scheduler_cron_delete_nonexistent() {
    let mut handler = make_scheduler_handler();
    let result = handler.call("tttt_cron_delete", r#"{"job_id": "nope"}"#);
    assert!(result.is_err());
}
