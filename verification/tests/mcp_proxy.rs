//! Between clients and the server: framing, forwarding and processing.
use serde_json::Value;
use tttt::backend::MockPty;
use tttt::manager::SessionManager;
use tttt::mcp::handler::Step;
use tttt::mcp::protocol::JsonRpcRequest;
use tttt::mcp::proxy;
use tttt::mcp::proxy::{
    frame_message, handle_client_event, is_ndjson, line_request, read_event, ClientAction,
    ClientEvent, ClientState, ProxyAction, ProxyEvent, ProxyState, TuiSocketEvent,
};
use tttt::mcp::pty_handler::PtyToolHandler;
use tttt::mcp::server::{request_line, Answer};
use tttt::protocol::decode_message;
use tttt::time::{Instant, Moment, UnixTime};

const NOW: Moment = Moment {
    now: Instant { nanos: 0 },
    unix: UnixTime { secs: 1_700_049_600, nanos: 0 },
};

fn make_handler() -> PtyToolHandler<MockPty> {
    PtyToolHandler::new_owned(SessionManager::<MockPty>::new(), "/tmp".to_string())
}

/// Reads a request as it comes in.
fn parse(text: &str) -> Option<JsonRpcRequest> {
    let value: Value = serde_json::from_str(text).ok()?;
    let params = match value.get("params") {
        Some(p) => p.clone(),
        None => Value::Object(serde_json::Map::new()),
    };
    Some(JsonRpcRequest {
        jsonrpc: value.get("jsonrpc")?.as_str()?.to_string(),
        id: value.get("id").filter(|id| !id.is_null()).map(|id| id.to_string()),
        method: value.get("method")?.as_str()?.to_string(),
        params: params.to_string().into_bytes(),
    })
}

/// Processes a request to the end, with devices that only remember.
fn process_jsonrpc_request(
    line: &str,
    handler: &mut PtyToolHandler<MockPty>,
    server_name: &str,
) -> String {
    let mut answer = proxy::process_jsonrpc_request(parse(line).as_ref(), handler, server_name, NOW);
    loop {
        match answer {
            Answer::Respond(response) => return response.to_json(),
            Answer::Silent => return String::new(),
            Answer::Continue { id, step: Step::Launch(request) } => {
                let device = MockPty::new(request.cols, request.rows);
                let command = request.command.clone().unwrap_or("bash".to_string());
                let step = handler.launched(request, device, command, NOW);
                answer = proxy::call_outcome(step, id);
            }
            Answer::Continue { id, step } => panic!("unexpected step for {}: {:?}", id, step),
        }
    }
}

/// Takes the next message from what a client has sent.
fn next_event(sent: &mut Vec<u8>) -> TuiSocketEvent {
    if sent.is_empty() {
        return TuiSocketEvent::Eof;
    }
    if is_ndjson(sent[0]) {
        let end = sent.iter().position(|b| *b == 0x0a).unwrap_or(sent.len());
        let line = String::from_utf8(sent[..end].to_vec()).unwrap();
        sent.drain(..(end + 1).min(sent.len()));
        return read_event(line_request(&line), true);
    }
    match decode_message(sent) {
        Some((message, used)) => {
            sent.drain(..used);
            read_event(message, false)
        }
        None => TuiSocketEvent::Eof,
    }
}

/// Serves a connection on which one request after the other comes in.
fn handle_proxy_client(
    sent: &[u8],
    handler: &mut PtyToolHandler<MockPty>,
    server_name: &str,
) -> Vec<u8> {
    let mut sent = sent.to_vec();
    let mut replies = Vec::new();
    let mut state = ClientState::Idle;
    let mut action = ClientAction::Receive;
    loop {
        let event = match action {
            ClientAction::Receive => ClientEvent::Read(next_event(&mut sent)),
            ClientAction::TryReceive => ClientEvent::Nothing,
            ClientAction::Process { request, .. } => {
                let line = String::from_utf8(request).unwrap();
                let response = process_jsonrpc_request(&line, handler, server_name);
                ClientEvent::Processed(response.into_bytes())
            }
            ClientAction::ProcessPending { .. } => ClientEvent::WriteFailed,
            ClientAction::Send(bytes) => {
                replies.extend_from_slice(&bytes);
                ClientEvent::Read(next_event(&mut sent))
            }
            ClientAction::Close => return replies,
        };
        let (next, todo) = handle_client_event(state, event);
        state = next;
        action = todo;
    }
}

/// Bridges what comes in on lines to a server.
fn run_proxy(input: &str, ndjson: bool) -> Vec<u8> {
    let mut bridge = ProxyState::new(ndjson);
    let mut handler = make_handler();
    let mut output = Vec::new();
    for line in input.lines() {
        let request = match request_line(line) {
            Some(request) => request,
            None => continue,
        };
        let bytes = match bridge.handle(ProxyEvent::StdinLine(request)) {
            ProxyAction::Forward(bytes) => bytes,
            other => panic!("unexpected action: {:?}", other),
        };
        let mut replies = handle_proxy_client(&bytes, &mut handler, "tttt");
        while let TuiSocketEvent::Request(response, _) = next_event(&mut replies) {
            match bridge.handle(ProxyEvent::SocketResponse(response)) {
                ProxyAction::Output(line) => output.extend_from_slice(&line),
                other => panic!("unexpected action: {:?}", other),
            }
        }
    }
    assert_eq!(bridge.handle(ProxyEvent::StdinEof), ProxyAction::CloseInput);
    output
}

fn value(bytes: &[u8]) -> Value {
    serde_json::from_slice(bytes).unwrap()
}

/// Sends a request with a length before it, and reads the response in the same way.
fn roundtrip(request: &str, handler: &mut PtyToolHandler<MockPty>, server_name: &str) -> Value {
    let replies = handle_proxy_client(&frame_message(request.as_bytes(), false), handler, server_name);
    let (response, used) = decode_message(&replies).unwrap();
    assert_eq!(used, replies.len());
    value(&response)
}

#[test]
fn test_process_parse_error() {
    let mut handler = make_handler();
    let resp = process_jsonrpc_request("not json {{{", &mut handler, "srv");
    let v: Value = serde_json::from_str(&resp).unwrap();
    assert_eq!(v["error"]["code"], -32700); // parse error code
}

#[test]
fn test_process_ping() {
    let mut handler = make_handler();
    let req = r#"{"jsonrpc":"2.0","id":1,"method":"ping","params":{}}"#;
    let resp = process_jsonrpc_request(req, &mut handler, "srv");
    let v: Value = serde_json::from_str(&resp).unwrap();
    assert_eq!(v["result"], Value::Object(serde_json::Map::new()));
    assert_eq!(v["id"], 1);
}

#[test]
fn test_process_initialized_notification_returns_empty() {
    let mut handler = make_handler();
    let req = r#"{"jsonrpc":"2.0","id":null,"method":"initialized","params":{}}"#;
    let resp = process_jsonrpc_request(req, &mut handler, "srv");
    assert!(resp.is_empty());
}

#[test]
fn test_process_notifications_cancelled_returns_empty() {
    let mut handler = make_handler();
    let req = r#"{"jsonrpc":"2.0","id":null,"method":"notifications/cancelled","params":{}}"#;
    let resp = process_jsonrpc_request(req, &mut handler, "srv");
    assert!(resp.is_empty());
}

#[test]
fn test_process_unknown_method() {
    let mut handler = make_handler();
    let req = r#"{"jsonrpc":"2.0","id":2,"method":"no/such","params":{}}"#;
    let resp = process_jsonrpc_request(req, &mut handler, "srv");
    let v: Value = serde_json::from_str(&resp).unwrap();
    assert_eq!(v["error"]["code"], -32601); // method not found
    assert_eq!(v["id"], 2);
}

#[test]
fn test_process_tools_call_unknown_tool() {
    let mut handler = make_handler();
    let req = r#"{"jsonrpc":"2.0","id":3,"method":"tools/call","params":{"name":"does_not_exist","arguments":{}}}"#;
    let resp = process_jsonrpc_request(req, &mut handler, "srv");
    let v: Value = serde_json::from_str(&resp).unwrap();
    assert_eq!(v["error"]["code"], -32601); // ToolNotFound → method_not_found
    assert_eq!(v["id"], 3);
}

#[test]
fn test_process_tools_call_success_pty_launch() {
    let mut handler = make_handler();
    let req = r#"{"jsonrpc":"2.0","id":4,"method":"tools/call","params":{"name":"tttt_pty_launch","arguments":{}}}"#;
    let resp = process_jsonrpc_request(req, &mut handler, "srv");
    let v: Value = serde_json::from_str(&resp).unwrap();
    assert!(v["result"]["content"].is_array(), "expected content array");
    let text = v["result"]["content"][0]["text"].as_str().unwrap();
    let result: Value = serde_json::from_str(text).unwrap();
    assert_eq!(result["session_id"], "pty-1");
}

#[test]
fn test_process_initialize_returns_server_info() {
    let mut handler = make_handler();
    let req = r#"{"jsonrpc":"2.0","id":5,"method":"initialize","params":{}}"#;
    let resp = process_jsonrpc_request(req, &mut handler, "my-server");
    let v: Value = serde_json::from_str(&resp).unwrap();
    assert_eq!(v["result"]["serverInfo"]["name"], "my-server");
    assert_eq!(v["result"]["protocolVersion"], "2024-11-05");
}

#[test]
fn test_process_tools_list() {
    let mut handler = make_handler();
    let req = r#"{"jsonrpc":"2.0","id":6,"method":"tools/list","params":{}}"#;
    let resp = process_jsonrpc_request(req, &mut handler, "srv");
    let v: Value = serde_json::from_str(&resp).unwrap();
    assert!(v["result"]["tools"].is_array());
    assert!(!v["result"]["tools"].as_array().unwrap().is_empty());
}

#[test]
fn test_run_proxy_initialize() {
    let input = "{\"jsonrpc\":\"2.0\",\"id\":1,\"method\":\"initialize\",\"params\":{}}\n";
    let output = run_proxy(input, false);

    let out_str = String::from_utf8(output).unwrap();
    let v: Value = serde_json::from_str(out_str.trim()).unwrap();
    assert_eq!(v["result"]["protocolVersion"], "2024-11-05");
    assert_eq!(v["result"]["serverInfo"]["name"], "tttt");
}

#[test]
fn test_run_proxy_notification_produces_no_output() {
    // A notification (id:null) should be forwarded but produce no output line
    let input = "{\"jsonrpc\":\"2.0\",\"id\":null,\"method\":\"initialized\",\"params\":{}}\n";
    let output = run_proxy(input, false);
    assert!(output.is_empty(), "notifications should produce no proxy output");
}

#[test]
fn test_run_proxy_empty_lines_ignored() {
    // Only blank lines + real request
    let input = "\n\n{\"jsonrpc\":\"2.0\",\"id\":1,\"method\":\"ping\",\"params\":{}}\n";
    let output = run_proxy(input, false);

    let out_str = String::from_utf8(output).unwrap();
    let v: Value = serde_json::from_str(out_str.trim()).unwrap();
    assert_eq!(v["result"], Value::Object(serde_json::Map::new()));
}

#[test]
fn test_proxy_roundtrip_initialize() {
    let req = r#"{"jsonrpc":"2.0","id":1,"method":"initialize","params":{}}"#;
    let resp = roundtrip(req, &mut make_handler(), "test");
    assert_eq!(resp["result"]["serverInfo"]["name"], "test");
}

#[test]
fn test_proxy_roundtrip_tools_list() {
    let req = r#"{"jsonrpc":"2.0","id":2,"method":"tools/list","params":{}}"#;
    let resp = roundtrip(req, &mut make_handler(), "test");
    let tools = resp["result"]["tools"].as_array().unwrap();
    assert_eq!(tools.len(), 15); // 15 PTY tools
}

#[test]
fn test_proxy_roundtrip_pty_launch_and_list() {
    let mut handler = make_handler();

    // Launch
    let req = r#"{"jsonrpc":"2.0","id":1,"method":"tools/call","params":{"name":"tttt_pty_launch","arguments":{}}}"#;
    let resp = roundtrip(req, &mut handler, "test");
    let text = resp["result"]["content"][0]["text"].as_str().unwrap();
    let result: Value = serde_json::from_str(text).unwrap();
    assert_eq!(result["session_id"], "pty-1");

    // List
    let req = r#"{"jsonrpc":"2.0","id":2,"method":"tools/call","params":{"name":"tttt_pty_list","arguments":{}}}"#;
    let resp = roundtrip(req, &mut handler, "test");
    let text = resp["result"]["content"][0]["text"].as_str().unwrap();
    let result: Value = serde_json::from_str(text).unwrap();
    assert_eq!(result.as_array().unwrap().len(), 1);
}

#[test]
fn test_proxy_full_stdio_roundtrip() {
    let input = r#"{"jsonrpc":"2.0","id":1,"method":"initialize","params":{}}"#;
    let resp = roundtrip(input, &mut make_handler(), "tttt");
    assert_eq!(resp["result"]["protocolVersion"], "2024-11-05");
}
