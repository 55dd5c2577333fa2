//! The server that answers requests with tools.
use serde_json::Value;
use tttt::backend::MockPty;
use tttt::error::PtyError;
use tttt::manager::SessionManager;
use tttt::mcp::composite::{AnyHandler, CompositeToolHandler};
use tttt::mcp::handler::Step;
use tttt::mcp::protocol::{JsonRpcRequest, JsonRpcResponse};
use tttt::mcp::pty_handler::PtyToolHandler;
use tttt::mcp::scheduler_handler::SchedulerToolHandler;
use tttt::mcp::server::{call_json, request_line, settled, Answer, McpServer};
use tttt::scheduler::Scheduler;
use tttt::time::{Instant, Moment, UnixTime};

/// Reads a request as it comes in.
fn parse(text: &str) -> Option<JsonRpcRequest> {
    let value: Value = serde_json::from_str(text).ok()?;
    let params = match value.get("params") {
        Some(p) => p.clone(),
        None => Value::Object(serde_json::Map::new()),
    };
    Some(JsonRpcRequest {
        jsonrpc: value.get("jsonrpc")?.as_str()?.to_string(),
        id: value.get("id").filter(|id| !id.is_null()).map(|id| id.to_string()),
        method: value.get("method")?.as_str()?.to_string(),
        params: params.to_string().into_bytes(),
    })
}

const NOW: Moment = Moment {
    now: Instant { nanos: 0 },
    unix: UnixTime { secs: 1_700_049_600, nanos: 0 },
};

fn value(json: &str) -> Value {
    serde_json::from_str(json).unwrap()
}

/// A server between what it reads and what it writes.
struct Connection {
    server: McpServer<PtyToolHandler<MockPty>>,
    read: String,
    written: String,
}

impl Connection {
    fn process_line(&mut self, line: &str) -> Option<JsonRpcResponse> {
        match self.server.process_line(parse(line).as_ref(), NOW) {
            Answer::Respond(response) => Some(response),
            Answer::Silent => None,
            other => panic!("unexpected answer: {:?}", other),
        }
    }

    fn run(&mut self) {
        let lines: Vec<String> = self.read.lines().map(|l| l.to_string()).collect();
        for line in lines {
            if let Some(request) = request_line(&line) {
                if let Some(response) = self.process_line(&request) {
                    self.written.push_str(&response.to_json());
                    self.written.push('\n');
                }
            }
        }
    }
}

fn make_server(input: &str) -> Connection {
    let manager: SessionManager<MockPty> = SessionManager::new();
    let handler = PtyToolHandler::new_owned(manager, "/tmp".to_string());
    Connection {
        server: McpServer::new(handler),
        read: input.to_string(),
        written: String::new(),
    }
}

#[test]
fn server_test_initialize_handshake() {
    let mut server = make_server("");
    let resp = server
        .process_line(r#"{"jsonrpc":"2.0","id":1,"method":"initialize","params":{}}"#)
        .unwrap();
    assert!(resp.result.is_some());
    let result = value(&resp.result.unwrap());
    assert_eq!(result["protocolVersion"], "2024-11-05");
    assert!(result["capabilities"]["tools"].is_object());
    assert_eq!(result["serverInfo"]["name"], "tttt");
}

#[test]
fn test_initialized_notification() {
    let mut server = make_server("");
    let resp = server.process_line(r#"{"jsonrpc":"2.0","method":"initialized"}"#);
    assert!(resp.is_none()); // notifications don't get responses
}

#[test]
fn test_ping() {
    let mut server = make_server("");
    let resp = server
        .process_line(r#"{"jsonrpc":"2.0","id":2,"method":"ping"}"#)
        .unwrap();
    assert!(resp.result.is_some());
}

#[test]
fn server_test_tools_list() {
    let mut server = make_server("");
    let resp = server
        .process_line(r#"{"jsonrpc":"2.0","id":3,"method":"tools/list","params":{}}"#)
        .unwrap();
    let tools = value(&resp.result.unwrap())["tools"].as_array().unwrap().clone();
    assert_eq!(tools.len(), 15);
}

#[test]
fn test_tools_call_pty_list() {
    let mut server = make_server("");
    let resp = server
        .process_line(
            r#"{"jsonrpc":"2.0","id":4,"method":"tools/call","params":{"name":"tttt_pty_list","arguments":{}}}"#,
        )
        .unwrap();
    let result = value(&resp.result.unwrap());
    assert!(result["content"].is_array());
}

#[test]
fn test_tools_call_missing_name() {
    let mut server = make_server("");
    let resp = server
        .process_line(
            r#"{"jsonrpc":"2.0","id":5,"method":"tools/call","params":{"arguments":{}}}"#,
        )
        .unwrap();
    assert!(resp.error.is_some());
    assert_eq!(resp.error.unwrap().code, -32602);
}

#[test]
fn test_tools_call_unknown_tool() {
    let mut server = make_server("");
    let resp = server
        .process_line(
            r#"{"jsonrpc":"2.0","id":6,"method":"tools/call","params":{"name":"nonexistent","arguments":{}}}"#,
        )
        .unwrap();
    assert!(resp.error.is_some());
    assert_eq!(resp.error.unwrap().code, -32601);
}

#[test]
fn test_unknown_method() {
    let mut server = make_server("");
    let resp = server
        .process_line(r#"{"jsonrpc":"2.0","id":7,"method":"unknown_method"}"#)
        .unwrap();
    assert!(resp.error.is_some());
    assert_eq!(resp.error.unwrap().code, -32601);
}

#[test]
fn test_malformed_json() {
    let mut server = make_server("");
    let resp = server.process_line("not json at all").unwrap();
    assert!(resp.error.is_some());
    assert_eq!(resp.error.unwrap().code, -32700);
}

#[test]
fn test_run_loop() {
    let input = [
        r#"{"jsonrpc":"2.0","id":1,"method":"initialize","params":{}}"#,
        "\n",
        r#"{"jsonrpc":"2.0","id":2,"method":"ping"}"#,
        "\n",
    ]
    .concat();
    let mut server = make_server(&input);
    server.run();
    let output = server.written.clone();
    let lines: Vec<&str> = output.lines().collect();
    assert_eq!(lines.len(), 2);
    // First response should be initialize
    let resp1: Value = serde_json::from_str(lines[0]).unwrap();
    assert_eq!(resp1["id"], Value::from(1));
    // Second response should be ping
    let resp2: Value = serde_json::from_str(lines[1]).unwrap();
    assert_eq!(resp2["id"], Value::from(2));
}

#[test]
fn test_run_skips_empty_lines() {
    let input = "\n\n";
    let mut server = make_server(&input);
    server.run();
    assert!(server.written.is_empty());
}

#[test]
fn test_response_id_matches_request() {
    let mut server = make_server("");
    let resp = server
        .process_line(r#"{"jsonrpc":"2.0","id":"abc-123","method":"ping"}"#)
        .unwrap();
    assert_eq!(value(&resp.id), Value::from("abc-123"));
}

/// A server with tools of several handlers, and devices that only remember.
fn run_tester(input: &str) -> String {
    let manager: SessionManager<MockPty> = SessionManager::new();
    let pty_handler = PtyToolHandler::new_owned(manager, "/tmp".to_string());
    let scheduler_handler = SchedulerToolHandler::new_owned(Scheduler::new());
    let mut composite = CompositeToolHandler::new();
    composite.add_handler(AnyHandler::Pty(pty_handler));
    composite.add_handler(AnyHandler::Scheduler(scheduler_handler));
    let mut server = McpServer::new(composite);

    let mut output = String::new();
    for line in input.lines() {
        let mut answer = server.process_line(parse(line).as_ref(), NOW);
        loop {
            match answer {
                Answer::Respond(response) => {
                    output.push_str(&response.to_json());
                    output.push('\n');
                    break;
                }
                Answer::Silent => break,
                Answer::Continue { id, step: Step::Launch(request) } => {
                    let device = MockPty::new(request.cols, request.rows);
                    let step = match server.handler_mut().handler_at(0) {
                        AnyHandler::Pty(h) => h.launched(request, device, "bash".to_string(), NOW),
                        _ => panic!("not the handler of terminals"),
                    };
                    answer = server.finish(id, step);
                }
                other => panic!("unexpected answer: {:?}", other),
            }
        }
    }
    output
}

#[test]
fn main_test_initialize_handshake() {
    let input = r#"{"jsonrpc":"2.0","id":1,"method":"initialize","params":{}}"#;
    let response = value(&run_tester(&format!("{}\n", input)));

    assert_eq!(response["id"], 1);
    assert_eq!(response["result"]["protocolVersion"], "2024-11-05");
    assert_eq!(response["result"]["serverInfo"]["name"], "tttt");
}

#[test]
fn main_test_tools_list() {
    let input = r#"{"jsonrpc":"2.0","id":1,"method":"tools/list","params":{}}"#;
    let response = value(&run_tester(&format!("{}\n", input)));

    assert_eq!(response["id"], 1);
    assert!(response["result"]["tools"].is_array());
}

#[test]
fn test_full_handshake_and_tool_call() {
    let input = [
        r#"{"jsonrpc":"2.0","id":1,"method":"initialize","params":{}}"#,
        "\n",
        r#"{"jsonrpc":"2.0","method":"initialized"}"#,
        "\n",
        r#"{"jsonrpc":"2.0","id":2,"method":"tools/call","params":{"name":"tttt_pty_launch","arguments":{}}}"#,
        "\n",
    ]
    .concat();
    let response_str = run_tester(&input);
    let lines: Vec<&str> = response_str.lines().collect();

    // Should have 2 responses (initialize and tools/call, initialized is notification)
    assert_eq!(lines.len(), 2);

    let init_response = value(lines[0]);
    assert_eq!(init_response["id"], 1);
    assert_eq!(init_response["result"]["protocolVersion"], "2024-11-05");

    let launch_response = value(lines[1]);
    assert_eq!(launch_response["id"], 2);
    let content_text = launch_response["result"]["content"][0]["text"].as_str().unwrap();
    let launch_result = value(content_text);
    assert_eq!(launch_result["session_id"], "pty-1");
}

#[test]
fn failed_captures_take_the_place_of_the_answer() {
    let answer = || JsonRpcResponse::success("7".to_string(), "{}".to_string());
    let kept = settled(answer(), None);
    assert_eq!(kept.id, "7");
    assert_eq!(kept.result, Some("{}".to_string()));
    assert!(kept.error.is_none());
    let failed = settled(answer(), Some(PtyError::Io("read-only".to_string())));
    assert_eq!(failed.id, "7");
    assert!(failed.result.is_none());
    let error = failed.error.unwrap();
    assert_eq!(error.code, -32603);
    assert!(error.message.starts_with("Internal error: "));
    assert!(error.message.ends_with("pty I/O error: read-only"));
}

#[test]
fn texts_are_escaped_in_json() {
    let text = |inner: &str| format!("{{\"content\":[{{\"text\":\"{}\",\"type\":\"text\"}}]}}", inner);
    assert_eq!(call_json("a/é中\u{7f}\u{2028}"), text("a/é中\u{7f}\u{2028}"));
    assert_eq!(call_json("\"\\"), text("\\\"\\\\"));
    assert_eq!(call_json("\u{8}\t\n\u{c}\r"), text("\\b\\t\\n\\f\\r"));
    assert_eq!(call_json("\0\u{b}\u{1b}\u{1f}"), text("\\u0000\\u000b\\u001b\\u001f"));
    for c in (0..0x20u8).map(char::from) {
        assert!(call_json(&c.to_string()).chars().all(|c| c >= ' '));
    }
}
