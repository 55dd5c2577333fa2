//! Requests and responses.
use serde_json::Value;
use tttt::mcp::protocol::{JsonRpcError, JsonRpcRequest, JsonRpcResponse};

/// Reads a request as it comes in.
fn parse(text: &str) -> Option<JsonRpcRequest> {
    let value: Value = serde_json::from_str(text).ok()?;
    let params = match value.get("params") {
        Some(p) => p.clone(),
        None => Value::Object(serde_json::Map::new()),
    };
    Some(JsonRpcRequest {
        jsonrpc: value.get("jsonrpc")?.as_str()?.to_string(),
        id: value.get("id").filter(|id| !id.is_null()).map(|id| id.to_string()),
        method: value.get("method")?.as_str()?.to_string(),
        params: params.to_string().into_bytes(),
    })
}

#[test]
fn test_parse_valid_request() {
    let json = r#"{"jsonrpc":"2.0","id":1,"method":"test","params":{}}"#;
    let req = parse(json).unwrap();
    assert_eq!(req.jsonrpc, "2.0");
    assert_eq!(req.id, Some("1".to_string()));
    assert_eq!(req.method, "test");
}

#[test]
fn test_parse_request_default_params() {
    let json = r#"{"jsonrpc":"2.0","id":1,"method":"test"}"#;
    let req = parse(json).unwrap();
    let params: Value = serde_json::from_slice(&req.params).unwrap();
    assert!(params.is_object());
}

#[test]
fn test_parse_request_null_id() {
    let json = r#"{"jsonrpc":"2.0","id":null,"method":"test"}"#;
    let req = parse(json).unwrap();
    assert_eq!(req.id, None);
}

#[test]
fn test_parse_notification() {
    let json = r#"{"jsonrpc":"2.0","method":"notify"}"#;
    let req = parse(json).unwrap();
    assert_eq!(req.id, None);
}

#[test]
fn test_serialize_success_response() {
    let resp = JsonRpcResponse::success("1".to_string(), "\"ok\"".to_string());
    let json = resp.to_json();
    assert!(json.contains("\"result\":\"ok\""));
    assert!(!json.contains("\"error\""));
}

#[test]
fn test_serialize_error_response() {
    let resp = JsonRpcResponse::error(
        "1".to_string(),
        JsonRpcError::method_not_found("foo"),
    );
    let json = resp.to_json();
    assert!(json.contains("\"error\""));
    assert!(json.contains("-32601"));
    assert!(!json.contains("\"result\""));
}

#[test]
fn test_error_codes() {
    assert_eq!(JsonRpcError::parse_error().code, -32700);
    assert_eq!(JsonRpcError::invalid_request().code, -32600);
    assert_eq!(JsonRpcError::method_not_found("x").code, -32601);
    assert_eq!(JsonRpcError::invalid_params("x").code, -32602);
    assert_eq!(JsonRpcError::internal_error("x").code, -32603);
}
