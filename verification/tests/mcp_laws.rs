//! What holds of every call, on some.
use serde_json::Value;
use tttt::backend::MockPty;
use tttt::manager::SessionManager;
use tttt::mcp::arguments::{Arguments, Seconds};
use tttt::mcp::composite::{AnyHandler, CompositeToolHandler};
use tttt::mcp::error::McpError;
use tttt::mcp::handler::{Step, ToolHandler};
use tttt::mcp::notification_handler::NotificationToolHandler;
use tttt::mcp::protocol::JsonRpcRequest;
use tttt::mcp::proxy::{
    calls_tool, frame_message, handle_client_event, is_jsonrpc_notification, line_request, notifies,
    pending_bytes, read_event, server_event, Backoff, ClientAction, ClientEvent, ClientState,
    ProxyAction, ProxyEvent, ProxyState, Retry, TuiSocketEvent,
};
use tttt::mcp::pty_handler::PtyToolHandler;
use tttt::mcp::rate_limit::{calculate_wait_duration, clock, read_reset};
use tttt::mcp::replay_handler::ReplayToolHandler;
use tttt::mcp::scheduler_handler::SchedulerToolHandler;
use tttt::mcp::scratchpad_handler::ScratchpadToolHandler;
use tttt::mcp::server::{Answer, McpServer};
use tttt::mcp::sidebar_handler::SidebarMessageToolHandler;
use tttt::mcp::tui_handler::{TuiState, TuiToolHandler};
use tttt::notification::NotificationRegistry;
use tttt::scheduler::Scheduler;
use tttt::session::PtySession;
use tttt::time::{Duration, Instant, Moment, UnixTime};

/// Noon on a day in November 2023.
const NOON: Moment = Moment {
    now: Instant { nanos: 5_000_000_000 },
    unix: UnixTime { secs: 1_700_049_600, nanos: 0 },
};

fn after(millis: u64) -> Moment {
    Moment { now: NOON.now.plus(Duration::from_millis(millis)), ..NOON }
}

fn args(json: &str) -> Arguments {
    Arguments::read(json.as_bytes())
}

fn value(step: Step) -> Value {
    match step {
        Step::Done(Ok(reply)) => serde_json::from_str(&reply).unwrap(),
        other => panic!("unexpected step: {:?}", other),
    }
}

fn handlers() -> Vec<AnyHandler<MockPty>> {
    vec![
        AnyHandler::Pty(PtyToolHandler::new_owned(SessionManager::new(), "/tmp".to_string())),
        AnyHandler::Scheduler(SchedulerToolHandler::new_owned(Scheduler::new())),
        AnyHandler::Notification(NotificationToolHandler::new(
            NotificationRegistry::new(),
            SessionManager::new(),
        )),
        AnyHandler::Sidebar(SidebarMessageToolHandler::new(Vec::new(), false)),
        AnyHandler::Scratchpad(ScratchpadToolHandler::new()),
        AnyHandler::Replay(ReplayToolHandler::new("log.db".to_string())),
        AnyHandler::Tui(TuiToolHandler::new(TuiState::new(), SessionManager::new(), 80, 24)),
    ]
}

fn lacks(step: &Step) -> bool {
    matches!(step, Step::Done(Err(McpError::ToolNotFound(_))))
}

#[test]
fn handlers_know_the_tools_that_they_offer() {
    let mut names = Vec::new();
    for mut handler in handlers() {
        for tool in handler.tool_definitions() {
            let step = handler.handle_tool_call(tool.name, &args("{}"), NOON);
            assert!(!lacks(&step), "{}", tool.name);
            names.push(tool.name);
        }
        assert!(lacks(&handler.handle_tool_call("tttt_nothing", &args("{}"), NOON)));
    }
    assert_eq!(names.len(), 34);
    for mut handler in handlers() {
        let own: Vec<&str> = handler.tool_definitions().iter().map(|t| t.name).collect();
        for name in &names {
            let step = handler.handle_tool_call(name, &args("{}"), NOON);
            assert_eq!(lacks(&step), !own.contains(name), "{}", name);
        }
    }
}

#[test]
fn composites_offer_what_their_handlers_offer() {
    let mut composite: CompositeToolHandler<MockPty> = CompositeToolHandler::new();
    for handler in handlers() {
        composite.add_handler(handler);
    }
    let offered = composite.tool_definitions();
    assert_eq!(offered.len(), 34);
    for tool in &offered {
        assert!(!lacks(&composite.handle_tool_call(tool.name, &args("{}"), NOON)), "{}", tool.name);
    }
    assert!(lacks(&composite.handle_tool_call("tttt_nothing", &args("{}"), NOON)));
}

#[test]
fn composites_lend_their_sessions() {
    let mut sessions: SessionManager<MockPty> = SessionManager::new();
    let session = PtySession::new("pty-1".to_string(), MockPty::new(80, 24), "sh".to_string(), 80, 24);
    sessions.add_session(session).unwrap();
    let mut composite = CompositeToolHandler::with_sessions(sessions);
    for handler in handlers() {
        composite.add_handler(handler);
    }
    let listed = value(composite.handle_tool_call("tttt_pty_list", &args("{}"), NOON));
    assert_eq!(listed.as_array().unwrap().len(), 1);
    let sent = composite.handle_tool_call(
        "tttt_self_inject",
        &args(r#"{"session_id": "pty-1", "text": "hi"}"#),
        NOON,
    );
    value(sent);
    let mut taken: SessionManager<MockPty> = SessionManager::new();
    composite.exchange_sessions(&mut taken);
    assert_eq!(taken.get("pty-1").unwrap().backend().input_buf, b"hi\r");
    let listed = value(composite.handle_tool_call("tttt_pty_list", &args("{}"), NOON));
    assert_eq!(listed.as_array().unwrap().len(), 0);
}

fn request(id: Option<&str>, method: &str, params: &str) -> JsonRpcRequest {
    JsonRpcRequest {
        jsonrpc: "2.0".to_string(),
        id: id.map(|s| s.to_string()),
        method: method.to_string(),
        params: params.as_bytes().to_vec(),
    }
}

#[test]
fn requests_are_answered_under_their_own_identifier() {
    let mut server = McpServer::new(ScratchpadToolHandler::new());
    for method in ["initialize", "ping", "tools/list", "tools/call", "what"] {
        let r = request(Some("\"q\""), method, "{}");
        match server.process_line(Some(&r), NOON) {
            Answer::Respond(response) => {
                assert_eq!(response.id, "\"q\"");
                assert!(!response.to_json().contains('\n'));
            }
            other => panic!("unexpected answer: {:?}", other),
        }
    }
    for method in ["initialized", "notifications/cancelled"] {
        let r = request(None, method, "{}");
        assert!(matches!(server.process_line(Some(&r), NOON), Answer::Silent));
    }
    match server.process_line(None, NOON) {
        Answer::Respond(response) => {
            assert_eq!(response.to_json(), "{\"jsonrpc\":\"2.0\",\"id\":null,\"error\":{\"code\":-32700,\"message\":\"Parse error\"}}");
        }
        other => panic!("unexpected answer: {:?}", other),
    }
}

#[test]
fn calls_that_wait_are_answered_in_the_end() {
    let mut handler = PtyToolHandler::new_owned(SessionManager::new(), "/tmp".to_string());
    value(handler.handle_pty_launch_mock(&args("{}"), NOON));
    let mut server = McpServer::new(handler);
    let params = r#"{"name":"tttt_pty_wait_for","arguments":{"session_id":"pty-1","pattern":"never","timeout_ms":150}}"#;
    let r = request(Some("5"), "tools/call", params);
    let mut answer = server.process_line(Some(&r), NOON);
    let mut waited = 0;
    let response = loop {
        match answer {
            Answer::Continue { id, step: Step::Wait { millis, task } } => {
                waited += millis;
                answer = server.resume(id, task, after(waited));
            }
            Answer::Respond(response) => break response,
            other => panic!("unexpected answer: {:?}", other),
        }
    };
    assert_eq!(waited, 200);
    assert_eq!(response.id, "5");
    assert!(response.to_json().contains("timeout waiting for pattern 'never' after 150ms"));
}

#[test]
fn cancelled_calls_stop_waiting() {
    let mut handler = PtyToolHandler::new_owned(SessionManager::new(), "/tmp".to_string());
    value(handler.handle_pty_launch_mock(&args("{}"), NOON));
    let wanted = args(r#"{"session_id": "pty-1", "pattern": "never"}"#);
    let task = match handler.handle_tool_call("tttt_pty_wait_for", &wanted, NOON) {
        Step::Wait { task, .. } => task,
        other => panic!("unexpected step: {:?}", other),
    };
    handler.set_cancel_token(true);
    assert_eq!(value(handler.resume(task, after(100)))["status"], "cancelled");
}

#[test]
fn ignored_parts_of_a_screen_do_not_count() {
    let mut handler = PtyToolHandler::new_owned(SessionManager::new(), "/tmp".to_string());
    value(handler.handle_pty_launch_mock(&args("{}"), NOON));
    let show = |handler: &mut PtyToolHandler<MockPty>, text: &str| {
        let session = handler.manager_mut().get_mut("pty-1").unwrap();
        session.backend_mut().queue_output(format!("\x1b[H{}", text).as_bytes());
    };
    let wanted = args(
        r#"{"session_id": "pty-1", "idle_seconds": 2.0, "timeout": 10.0, "ignore_pattern": "\\d+:\\d+"}"#,
    );
    show(&mut handler, "12:34 ready");
    let mut step = handler.handle_tool_call("tttt_pty_wait_for_idle", &wanted, NOON);
    // The clock on the screen goes on, the rest stays: after two seconds the session is idle.
    for second in 1..=2u64 {
        let task = match step {
            Step::Wait { millis, task } => {
                assert_eq!(millis, 1_000);
                task
            }
            other => panic!("unexpected step: {:?}", other),
        };
        show(&mut handler, &format!("12:{} ready", 34 + second));
        step = handler.resume(task, after(second * 1_000));
    }
    let reply = value(step);
    assert_eq!(reply["status"], "idle");
    assert_eq!(reply["idle_seconds"].as_f64().unwrap(), 2.0);
    assert_eq!(reply["last_output_line"], "12:36 ready");
}

#[test]
fn spans_are_read_and_written() {
    assert_eq!(args(r#"{"idle_seconds": 1.5}"#).idle_seconds, Some(Seconds::Span(Duration { nanos: 1_500_000_000 })));
    assert_eq!(args(r#"{"idle_seconds": -1}"#).idle_seconds, Some(Seconds::Negative));
    assert_eq!(args(r#"{"idle_seconds": 1e300}"#).idle_seconds, Some(Seconds::TooLong));
    assert_eq!(args(r#"{"idle_seconds": "1"}"#).idle_seconds, None);
    let mut handler = PtyToolHandler::new_owned(SessionManager::new(), "/tmp".to_string());
    value(handler.handle_pty_launch_mock(&args("{}"), NOON));
    let status = value(handler.handle_tool_call("tttt_get_status", &args("{}"), after(1_500)));
    assert_eq!(status["sessions"][0]["idle_seconds"].as_f64().unwrap(), 1.5);
}

#[test]
fn arguments_are_read() {
    let a = args(r#"{"args": ["-l", 3, "x y"], "append": true, "cols": 70000, "name": "n\"m"}"#);
    assert_eq!(a.args, vec!["-l".to_string(), "x y".to_string()]);
    assert_eq!(a.append, Some(true));
    assert_eq!(a.cols, Some(70_000));
    assert_eq!(a.name, Some("n\"m".to_string()));
    assert_eq!(args("nonsense").name, None);
    // Sizes are cut to what a terminal can have.
    let handler: PtyToolHandler<MockPty> =
        PtyToolHandler::new_owned(SessionManager::new(), "/tmp".to_string()).with_default_dims(100, 30);
    match handler.handle_pty_launch(&a) {
        Step::Launch(request) => {
            assert_eq!((request.cols, request.rows), (4_464, 30));
            assert_eq!(request.args, vec!["-l".to_string(), "x y".to_string()]);
            assert_eq!(request.command, None);
        }
        other => panic!("unexpected step: {:?}", other),
    }
}

#[test]
fn launches_have_a_command_and_a_directory() {
    let mut handler: PtyToolHandler<MockPty> =
        PtyToolHandler::new_owned(SessionManager::new(), "/work".to_string());
    handler.set_default_dims(90, 20);
    let request = |handler: &PtyToolHandler<MockPty>, json: &str| match handler.handle_pty_launch(&args(json)) {
        Step::Launch(request) => request,
        other => panic!("unexpected step: {:?}", other),
    };
    let plain = request(&handler, "{}");
    assert_eq!((plain.cols, plain.rows), (90, 20));
    assert_eq!(handler.launch_command(&plain, Some("/bin/zsh")), "/bin/zsh");
    assert_eq!(handler.launch_command(&plain, None), "/bin/bash");
    assert_eq!(handler.launch_dir(&plain), "/work");
    let full = request(&handler, r#"{"command": "top", "working_dir": "/"}"#);
    assert_eq!(handler.launch_command(&full, Some("/bin/zsh")), "top");
    assert_eq!(handler.launch_dir(&full), "/");
}

#[test]
fn states_can_be_worked_on_from_outside() {
    let mut scheduler = SchedulerToolHandler::new_owned(Scheduler::with_epoch(NOON.now));
    value(scheduler.handle_reminder_set(&args(r#"{"message": "m", "delay_seconds": 1}"#), NOON));
    assert!(scheduler.scheduler_mut().tick(after(999).now).is_empty());
    assert_eq!(scheduler.scheduler_mut().tick(after(1_000).now).len(), 1);

    let mut notify: NotificationToolHandler<MockPty> =
        NotificationToolHandler::new(NotificationRegistry::new(), SessionManager::new());
    value(notify.handle_notify_on_pattern(&args(
        r#"{"watch_session_id": "s", "pattern": "x+", "inject_text": "t", "inject_session_id": "r"}"#,
    )));
    assert!(notify.registry_mut().check_session("s", "").is_empty());
    assert_eq!(notify.registry_mut().check_session("s", "axx").len(), 1);
    assert_eq!(notify.registry().watcher_count(), 1);

    let mut tui: TuiToolHandler<MockPty> =
        TuiToolHandler::new(TuiState::new(), SessionManager::new(), 80, 24);
    tui.tui_state_mut().dirty = true;
    assert!(tui.tui_state().dirty);
}

#[test]
fn keys_that_cannot_be_sent() {
    let mut handler = PtyToolHandler::new_owned(SessionManager::new(), "/tmp".to_string());
    value(handler.handle_pty_launch_mock(&args("{}"), NOON));
    let cut = args(r#"{"session_id": "pty-1", "keys": "\\x4é"}"#);
    assert!(matches!(handler.handle_tool_call("tttt_pty_send_keys", &cut, NOON), Step::Unsupported));
}

#[test]
fn notes_are_read_back_and_others_stay() {
    let mut handler = ScratchpadToolHandler::new();
    let write = |h: &mut ScratchpadToolHandler, json: &str| value(h.handle_scratchpad_write(&args(json)));
    write(&mut handler, r#"{"key": "a", "content": "1"}"#);
    write(&mut handler, r#"{"key": "b", "content": "2\n\"q\""}"#);
    write(&mut handler, r#"{"key": "a", "content": "3", "append": true}"#);
    assert_eq!(value(handler.handle_scratchpad_read(&args(r#"{"key": "a"}"#)))["content"], "13");
    assert_eq!(value(handler.handle_scratchpad_read(&args(r#"{"key": "b"}"#)))["content"], "2\n\"q\"");
    let missing = handler.handle_scratchpad_read(&args(r#"{"key": "c"}"#));
    assert!(matches!(missing, Step::Done(Err(_))));
}

#[test]
fn messages_stay_few() {
    let mut handler = SidebarMessageToolHandler::new(Vec::new(), false);
    for i in 0..25 {
        let reply = value(handler.handle_sidebar_message(&args(&format!(r#"{{"message": "m{}"}}"#, i))));
        assert_eq!(reply["count"].as_u64().unwrap(), (i + 1).min(10));
    }
    assert_eq!(handler.messages().len(), 10);
    assert_eq!(handler.messages()[0], "m15");
}

#[test]
fn waits_end_within_a_day() {
    let hours = |h: u32, m: u32, zone: &str, margin: u32| {
        calculate_wait_duration(h, m, zone, margin, NOON.unix).unwrap().as_secs()
    };
    assert_eq!(hours(14, 0, "UTC", 0), 2 * 3_600);
    assert_eq!(hours(14, 30, "UTC", 15), 2 * 3_600 + 45 * 60);
    // Past for today: tomorrow.
    assert_eq!(hours(11, 0, "UTC", 0), 23 * 3_600);
    // Noon in London is one in Brussels, and seven in New York.
    assert_eq!(hours(14, 0, "Europe/Brussels", 0), 3_600);
    assert_eq!(hours(8, 0, "America/New_York", 0), 3_600);
    for hour in 0..24 {
        assert!(hours(hour, 0, "Asia/Tokyo", 5) <= 86_400 + 300);
    }
    assert_eq!(
        calculate_wait_duration(1, 0, "Nowhere/Else", 0, NOON.unix),
        Err("Unknown timezone: Nowhere/Else".to_string()),
    );
    assert_eq!(clock(9, 5), "09:05");
}

#[test]
fn reset_times_are_read() {
    let groups = |hour: &str, minute: Option<&str>, half: &str| {
        read_reset(&[
            Some("whole".to_string()),
            Some(hour.to_string()),
            minute.map(|m| m.to_string()),
            Some(half.to_string()),
            Some("UTC".to_string()),
        ])
    };
    assert_eq!(groups("12", None, "am"), Some((0, 0, "UTC".to_string())));
    assert_eq!(groups("12", Some("05"), "pm"), Some((12, 5, "UTC".to_string())));
    assert_eq!(groups("3", Some("59"), "pm"), Some((15, 59, "UTC".to_string())));
}

#[test]
fn nothing_is_sent_for_an_empty_answer() {
    for ndjson in [true, false] {
        assert_eq!(pending_bytes(b"", ndjson), None);
        assert_eq!(pending_bytes(b"{}", ndjson), Some(frame_message(b"{}", ndjson)));
    }
}

#[test]
fn empty_lines_mean_nothing() {
    assert_eq!(server_event(Some(Vec::new()), true), None);
    let empty = Some(ProxyEvent::SocketResponse(Vec::new()));
    assert_eq!(server_event(Some(Vec::new()), false), empty);
    let answer = Some(ProxyEvent::SocketResponse(b"{}".to_vec()));
    assert_eq!(server_event(Some(b"{}".to_vec()), true), answer);
    assert_eq!(server_event(None, true), Some(ProxyEvent::SocketError));
}

#[test]
fn lines_end_where_they_should() {
    let framed = frame_message(b"{\"a\":1}", true);
    assert_eq!(framed, b"{\"a\":1}\n");
    assert_eq!(line_request(" {\"a\":1} \r\n"), b"{\"a\":1}");
    assert_eq!(frame_message(b"abc", false), vec![0, 0, 0, 3, b'a', b'b', b'c']);
}

#[test]
fn responses_are_sent_in_kind() {
    for ndjson in [false, true] {
        let read = ClientEvent::Read(TuiSocketEvent::Request(b"{\"method\":\"tools/call\"}".to_vec(), ndjson));
        let (state, action) = handle_client_event(ClientState::Idle, read);
        match action {
            ClientAction::Process { request, forget_cancel } => {
                assert_eq!(request, b"{\"method\":\"tools/call\"}");
                assert!(forget_cancel);
            }
            other => panic!("unexpected action: {:?}", other),
        }
        let (state, action) = handle_client_event(state, ClientEvent::Processed(b"ok".to_vec()));
        assert_eq!(action, ClientAction::TryReceive);
        // What came in meanwhile is seen to first.
        let pending = ClientEvent::Read(TuiSocketEvent::Request(b"p".to_vec(), !ndjson));
        let (state, action) = handle_client_event(state, pending);
        assert_eq!(action, ClientAction::ProcessPending { request: b"p".to_vec(), ndjson: !ndjson });
        let (state, action) = handle_client_event(state, ClientEvent::Nothing);
        assert_eq!(state, ClientState::Idle);
        assert_eq!(action, ClientAction::Send(frame_message(b"ok", ndjson)));
    }
    let (state, action) = handle_client_event(ClientState::Idle, ClientEvent::Read(TuiSocketEvent::Eof));
    assert_eq!((state, action), (ClientState::Closed, ClientAction::Close));
}

#[test]
fn cancels_are_noticed() {
    let cancel = b"{\"method\":\"notifications/cancelled\"}".to_vec();
    assert_eq!(read_event(cancel, true), TuiSocketEvent::CancelReceived);
    assert_eq!(read_event(b"x".to_vec(), false), TuiSocketEvent::Request(b"x".to_vec(), false));
    assert!(calls_tool(b"{\"method\": \"tools/call\"}"));
    assert!(!calls_tool(b"{\"method\":  \"tools/call\"}"));
}

#[test]
fn trying_ends() {
    let mut tries = Backoff::new(8);
    let mut waits = Vec::new();
    while tries.may_try() {
        match tries.failed() {
            Retry::After(millis) => waits.push(millis),
            Retry::GiveUp => break,
        }
    }
    assert_eq!(waits, vec![100, 200, 400, 800, 1_600, 2_000, 2_000]);
    assert!(!Backoff::new(0).may_try());
}

#[test]
fn bridges_stop_forwarding() {
    let mut bridge = ProxyState::new(false);
    let line = || ProxyEvent::StdinLine("{}".to_string());
    assert_eq!(bridge.handle(line()), ProxyAction::Forward(vec![0, 0, 0, 2, b'{', b'}']));
    assert_eq!(bridge.handle(ProxyEvent::SocketError), ProxyAction::Reconnect);
    assert_eq!(bridge.handle(ProxyEvent::StdinEof), ProxyAction::CloseInput);
    assert_eq!(bridge.handle(line()), ProxyAction::Ignore);
    assert_eq!(bridge.handle(ProxyEvent::SocketError), ProxyAction::Ignore);
    assert_eq!(
        bridge.handle(ProxyEvent::SocketResponse(b"r".to_vec())),
        ProxyAction::Output(b"r\n".to_vec()),
    );
}

#[test]
fn test_is_notification_null_no_space() {
    assert!(is_jsonrpc_notification(r#"{"id":null,"method":"initialized"}"#));
}

#[test]
fn test_is_notification_null_with_space() {
    assert!(is_jsonrpc_notification(r#"{"id": null,"method":"initialized"}"#));
}

#[test]
fn test_is_not_notification_numeric_id() {
    assert!(!is_jsonrpc_notification(r#"{"id":1,"method":"ping"}"#));
}

#[test]
fn test_is_not_notification_string_id() {
    assert!(!is_jsonrpc_notification(r#"{"id":"abc","method":"ping"}"#));
}

#[test]
fn test_is_not_notification_id_zero() {
    assert!(!is_jsonrpc_notification(r#"{"id":0,"method":"ping"}"#));
}

#[test]
fn test_is_notification_missing_id() {
    // JSON-RPC 2.0: a request with no "id" field at all is a notification
    assert!(is_jsonrpc_notification(
        r#"{"method":"notifications/cancelled","params":{"requestId":2}}"#
    ));
}

#[test]
fn test_is_not_notification_invalid_json() {
    assert!(!is_jsonrpc_notification("not json {{{"));
}

#[test]
fn notifications_are_told_by_their_identifier() {
    assert!(notifies(true, None));
    assert!(notifies(true, Some(b"null")));
    assert!(!notifies(true, Some(b"0")));
    assert!(!notifies(false, None));
}
