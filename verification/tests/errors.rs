//! Errors, what they come from, and what they say.
use tttt::backend::MockPty;
use tttt::error::PtyError;
use tttt::logging::LogError;
use tttt::manager::SessionManager;
use tttt::mcp::error::McpError;
use tttt::mcp::protocol::JsonRpcError;
use tttt::notification::NotificationRegistry;
use tttt::sandbox::{AccessMode, CapabilitySet, SandboxError};
use tttt::scheduler::{parse_interval, BusyPolicy, Scheduler, SchedulerError};
use tttt::session::PtySession;
use tttt::time::Instant;

fn session(id: &str) -> PtySession<MockPty> {
    PtySession::new(id.to_string(), MockPty::new(80, 24), "bash".to_string(), 80, 24)
}

#[test]
fn sessions_that_are_missing_or_too_many() {
    let mut manager: SessionManager<MockPty> = SessionManager::with_max_sessions(1);
    let missing = PtyError::SessionNotFound("x".to_string());
    assert_eq!(manager.resolve_id("x"), Err(PtyError::SessionNotFound("x".to_string())));
    assert_eq!(manager.kill_session("x"), Err(PtyError::SessionNotFound("x".to_string())));
    assert_eq!(missing.to_string(), "session not found: x");

    manager.add_session_with_name(session("a"), "n".to_string()).unwrap();
    let taken = manager.add_session_with_name(session("b"), "n".to_string()).unwrap_err();
    assert_eq!(taken, PtyError::DuplicateName("n".to_string()));
    assert_eq!(taken.to_string(), "session name already taken: n");
    let full = manager.add_session(session("b")).unwrap_err();
    assert_eq!(full, PtyError::MaxSessionsReached(1));
    assert_eq!(full.to_string(), "max sessions reached: 1");
}

#[test]
fn sessions_that_have_exited() {
    let mut s = session("a");
    s.kill().unwrap();
    let e = s.send_raw(b"x").unwrap_err();
    assert_eq!(e, PtyError::SessionExited);
    assert_eq!(e.to_string(), "session already exited");
}

#[test]
fn captures_out_of_turn() {
    let mut s = session("a");
    let e = s.stop_capture().unwrap_err();
    assert_eq!(e.to_string(), "no capture active");
    assert_eq!(
        s.start_capture(12).unwrap(),
        ("a-12".to_string(), "/tmp/tttt-capture-a-12.raw".to_string()),
    );
    let e = s.start_capture(13).unwrap_err();
    assert_eq!(e.to_string(), "capture already active");
}

#[test]
fn captures_without_a_file() {
    let mut s = session("a");
    s.start_capture(12).unwrap();
    let e = s.capture_failed("read-only".to_string());
    assert_eq!(e, PtyError::Io("read-only".to_string()));
    assert!(s.capture_path().is_none());
    assert_eq!(s.stop_capture().unwrap_err().to_string(), "no capture active");
    assert!(s.start_capture(13).is_ok());
}

#[test]
fn what_devices_report() {
    assert_eq!(PtyError::Io("gone".to_string()).to_string(), "pty I/O error: gone");
    assert_eq!(PtyError::Spawn("no".to_string()).to_string(), "pty spawn error: no");
    assert_eq!(PtyError::Resize("bad".to_string()).to_string(), "resize error: bad");
}

#[test]
fn what_logs_report() {
    assert_eq!(LogError::Io("full".to_string()).to_string(), "I/O error: full");
    assert_eq!(LogError::Json("odd".to_string()).to_string(), "JSON error: odd");
    assert_eq!(LogError::Sqlite("busy".to_string()).to_string(), "SQLite error: busy");
}

#[test]
fn intervals_and_jobs() {
    let e = parse_interval("soon").unwrap_err();
    assert!(matches!(&e, SchedulerError::InvalidExpression(_)));
    let mut scheduler = Scheduler::new();
    let now = Instant { nanos: 0 };
    assert!(scheduler
        .add_cron("soon".to_string(), "x".to_string(), None, BusyPolicy::default(), now)
        .is_err());
    let e = scheduler.remove_cron("cron-9").unwrap_err();
    assert_eq!(e, SchedulerError::NotFound("cron-9".to_string()));
    let shown = McpError::Scheduler(e).to_string();
    assert!(shown.starts_with("scheduler error: "), "{}", shown);
    assert!(shown.contains("cron-9"), "{}", shown);
}

#[test]
fn paths_that_are_not_there() {
    let e = CapabilitySet::new().allow_path("/no/such", None, AccessMode::Read).unwrap_err();
    assert!(matches!(&e, SandboxError::PathNotFound(_)));
    assert!(e.to_string().contains("/no/such"));
    assert!(!SandboxError::NotSupported.to_string().is_empty());
    assert!(SandboxError::Canonicalize("loop".to_string()).to_string().contains("loop"));
    assert!(SandboxError::ApplyFailed("why".to_string()).to_string().contains("why"));
}

#[test]
fn patterns_that_are_none() {
    let mut registry = NotificationRegistry::new();
    let e = registry
        .add_watcher("s".into(), "(", "t".into(), "root".into(), true)
        .unwrap_err();
    assert!(e.contains("regex parse error"), "{}", e);
    assert_eq!(registry.watcher_count(), 0);
}

#[test]
fn what_calls_report() {
    let rows = [
        (McpError::Json("x".to_string()), "JSON error: x", -32603),
        (McpError::Io("x".to_string()), "I/O error: x", -32603),
        (McpError::Pty(PtyError::SessionExited), "PTY error: session already exited", -32603),
        (McpError::ToolNotFound("x".to_string()), "tool not found: x", -32601),
        (McpError::InvalidParams("x".to_string()), "invalid params: x", -32602),
        (McpError::Protocol("x".to_string()), "protocol error: x", -32603),
    ];
    for (e, message, code) in rows {
        assert_eq!(e.to_string(), message);
        assert_eq!(JsonRpcError::of_call(&e).code, code);
    }
    assert_eq!(
        JsonRpcError { code: -7, message: "a\"b".to_string() }.to_json(),
        "{\"code\":-7,\"message\":\"a\\\"b\"}",
    );
}
