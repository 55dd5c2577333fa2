//! Events as they are logged.
use serde_json::Value;
use tttt::base64;
use tttt::event::{Direction, LogEvent};

/// Reads an event as a log reader does.
fn read_back(json: &str) -> LogEvent {
    let value: Value = serde_json::from_str(json).unwrap();
    LogEvent::with_timestamp(
        value["timestamp_ms"].as_u64().unwrap(),
        value["session_id"].as_str().unwrap().to_string(),
        Direction::from_name(value["direction"].as_str().unwrap()),
        base64::decode(value["data"].as_str().unwrap()).unwrap(),
    )
}

#[test]
fn test_direction_as_str() {
    assert_eq!(Direction::Input.as_str(), "input");
    assert_eq!(Direction::Output.as_str(), "output");
    assert_eq!(Direction::Meta.as_str(), "meta");
}

#[test]
fn test_log_event_new() {
    let event = LogEvent::new(1_700_000_000_000, "s1".to_string(), Direction::Input, b"hello".to_vec());
    assert_eq!(event.session_id, "s1");
    assert_eq!(event.direction, Direction::Input);
    assert_eq!(event.data, b"hello");
    assert!(event.timestamp_ms > 0);
}

#[test]
fn test_log_event_with_timestamp() {
    let event = LogEvent::with_timestamp(12345, "s1".to_string(), Direction::Output, b"world".to_vec());
    assert_eq!(event.timestamp_ms, 12345);
    assert_eq!(event.session_id, "s1");
    assert_eq!(event.direction, Direction::Output);
    assert_eq!(event.data, b"world");
}

#[test]
fn test_log_event_json_roundtrip() {
    let event = LogEvent::with_timestamp(
        1000,
        "s1".to_string(),
        Direction::Input,
        b"hello\x1b[A".to_vec(),
    );
    let parsed = read_back(&event.to_json());
    assert_eq!(parsed.timestamp_ms, event.timestamp_ms);
    assert_eq!(parsed.session_id, event.session_id);
    assert_eq!(parsed.direction, event.direction);
    assert_eq!(parsed.data, event.data);
}

#[test]
fn test_log_event_binary_data_roundtrip() {
    let binary_data: Vec<u8> = (0..=255).collect();
    let event = LogEvent::with_timestamp(1000, "s1".to_string(), Direction::Output, binary_data.clone());
    let parsed = read_back(&event.to_json());
    assert_eq!(parsed.data, binary_data);
}

#[test]
fn test_direction_serde() {
    let json = Value::from(Direction::Input.as_str()).to_string();
    assert_eq!(json, "\"input\"");
    let name: Value = serde_json::from_str("\"output\"").unwrap();
    let parsed = Direction::from_name(name.as_str().unwrap());
    assert_eq!(parsed, Direction::Output);
}
