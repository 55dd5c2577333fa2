//! The tools on offer.
use serde_json::Value;
use tttt::mcp::tools;
use tttt::mcp::tools::ToolDefinition;

fn values(definitions: Vec<ToolDefinition>) -> Vec<Value> {
    definitions.iter().map(|d| serde_json::from_str(&d.to_json()).unwrap()).collect()
}

#[test]
fn test_pty_tool_count() {
    assert_eq!(values(tools::pty_tool_definitions()).len(), 15);
}

#[test]
fn test_sidebar_tool_count() {
    assert_eq!(values(tools::sidebar_tool_definitions()).len(), 2);
}

#[test]
fn test_scheduler_tool_count() {
    assert_eq!(values(tools::scheduler_tool_definitions()).len(), 4);
}

#[test]
fn test_all_tools_have_name_and_description() {
    let all: Vec<Value> = values(tools::pty_tool_definitions())
        .into_iter()
        .chain(values(tools::scheduler_tool_definitions()))
        .collect();
    for tool in &all {
        assert!(tool["name"].is_string(), "tool missing name: {:?}", tool);
        assert!(tool["description"].is_string(), "tool missing description: {:?}", tool);
        assert!(tool["inputSchema"].is_object(), "tool missing inputSchema: {:?}", tool);
    }
}

#[test]
fn test_required_params_present() {
    let tools = values(tools::pty_tool_definitions());
    let send_keys = tools.iter().find(|t| t["name"] == "tttt_pty_send_keys").unwrap();
    let required = send_keys["inputSchema"]["required"].as_array().unwrap();
    assert!(required.contains(&Value::from("session_id")));
    assert!(required.contains(&Value::from("keys")));
}

#[test]
fn test_pty_launch_no_required_params() {
    let tools = values(tools::pty_tool_definitions());
    let launch = tools.iter().find(|t| t["name"] == "tttt_pty_launch").unwrap();
    assert!(launch["inputSchema"]["required"].is_null());
}

#[test]
fn test_notification_tool_count() {
    assert_eq!(values(tools::notification_tool_definitions()).len(), 5);
}

#[test]
fn test_sidebar_message_tool_present() {
    let tools = values(tools::sidebar_tool_definitions());
    let tool = tools.iter().find(|t| t["name"] == "tttt_sidebar_message").unwrap();
    assert!(tool["inputSchema"]["properties"]["message"].is_object());
    assert!(tool["inputSchema"]["properties"]["clear"].is_object());
}

#[test]
fn test_replay_tool_count() {
    assert_eq!(values(tools::replay_tool_definitions()).len(), 3);
}

#[test]
fn test_replay_get_screen_required_params() {
    let tools = values(tools::replay_tool_definitions());
    let tool = tools.iter().find(|t| t["name"] == "tttt_replay_get_screen").unwrap();
    let required = tool["inputSchema"]["required"].as_array().unwrap();
    assert!(required.contains(&Value::from("session_id")));
}

#[test]
fn test_replay_list_sessions_no_required() {
    let tools = values(tools::replay_tool_definitions());
    let tool = tools.iter().find(|t| t["name"] == "tttt_replay_list_sessions").unwrap();
    assert!(tool["inputSchema"]["required"].is_null());
}

#[test]
fn test_tool_names_unique() {
    let all: Vec<Value> = values(tools::pty_tool_definitions())
        .into_iter()
        .chain(values(tools::scheduler_tool_definitions()))
        .chain(values(tools::notification_tool_definitions()))
        .chain(values(tools::scratchpad_tool_definitions()))
        .chain(values(tools::sidebar_tool_definitions()))
        .chain(values(tools::replay_tool_definitions()))
        .collect();
    let names: Vec<&str> = all.iter().map(|t| t["name"].as_str().unwrap()).collect();
    let mut unique = names.clone();
    unique.sort();
    unique.dedup();
    assert_eq!(names.len(), unique.len(), "duplicate tool names found");
}

#[test]
fn test_scratchpad_tool_definitions_count() {
    assert_eq!(values(tools::scratchpad_tool_definitions()).len(), 2);
}
