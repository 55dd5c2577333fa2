//! Messages to and from viewers.
use serde_json::Value;
use tttt::protocol;
use tttt::protocol::{ClientMsg, ServerMsg, SessionInfo};

/// Messages that stand between two programs as JSON.
trait Wire: Sized {
    fn to_value(&self) -> Value;
    fn from_value(value: &Value) -> Option<Self>;
}

fn tagged(tag: &str, members: Vec<(&str, Value)>) -> Value {
    let fields: serde_json::Map<String, Value> = members.into_iter().map(|(k, v)| (k.to_string(), v)).collect();
    let mut outer = serde_json::Map::new();
    outer.insert(tag.to_string(), Value::Object(fields));
    Value::Object(outer)
}

fn bytes_value(bytes: &[u8]) -> Value {
    Value::from(bytes.to_vec())
}

fn value_bytes(value: &Value) -> Option<Vec<u8>> {
    value.as_array()?.iter().map(|b| b.as_u64().map(|n| n as u8)).collect()
}

fn small(value: &Value) -> Option<u16> {
    value.as_u64().map(|n| n as u16)
}

impl Wire for ServerMsg {
    fn to_value(&self) -> Value {
        match self {
            ServerMsg::ScreenUpdate { screen_data, cursor_row, cursor_col } => tagged(
                "ScreenUpdate",
                vec![
                    ("screen_data", bytes_value(screen_data)),
                    ("cursor_row", Value::from(*cursor_row)),
                    ("cursor_col", Value::from(*cursor_col)),
                ],
            ),
            ServerMsg::SessionList { sessions, active_id } => {
                let items: Vec<Value> = sessions
                    .iter()
                    .map(|s| {
                        let mut m = serde_json::Map::new();
                        m.insert("id".to_string(), Value::from(s.id.as_str()));
                        m.insert("command".to_string(), Value::from(s.command.as_str()));
                        m.insert("status".to_string(), Value::from(s.status.as_str()));
                        Value::Object(m)
                    })
                    .collect();
                tagged(
                    "SessionList",
                    vec![
                        ("sessions", Value::from(items)),
                        ("active_id", Value::from(active_id.clone())),
                    ],
                )
            }
            ServerMsg::Goodbye => Value::from("Goodbye"),
            ServerMsg::WindowSize { cols, rows } => tagged(
                "WindowSize",
                vec![("cols", Value::from(*cols)), ("rows", Value::from(*rows))],
            ),
        }
    }

    fn from_value(value: &Value) -> Option<Self> {
        if value == "Goodbye" {
            return Some(ServerMsg::Goodbye);
        }
        if let Some(m) = value.get("ScreenUpdate") {
            return Some(ServerMsg::ScreenUpdate {
                screen_data: value_bytes(&m["screen_data"])?,
                cursor_row: small(&m["cursor_row"])?,
                cursor_col: small(&m["cursor_col"])?,
            });
        }
        if let Some(m) = value.get("SessionList") {
            let text = |v: &Value| v.as_str().map(|s| s.to_string());
            let mut sessions = Vec::new();
            for s in m["sessions"].as_array()? {
                sessions.push(SessionInfo {
                    id: text(&s["id"])?,
                    command: text(&s["command"])?,
                    status: text(&s["status"])?,
                });
            }
            return Some(ServerMsg::SessionList { sessions, active_id: text(&m["active_id"]) });
        }
        let m = value.get("WindowSize")?;
        Some(ServerMsg::WindowSize { cols: small(&m["cols"])?, rows: small(&m["rows"])? })
    }
}

impl Wire for ClientMsg {
    fn to_value(&self) -> Value {
        match self {
            ClientMsg::KeyInput { bytes } => tagged("KeyInput", vec![("bytes", bytes_value(bytes))]),
            ClientMsg::SwitchSession { session_id } => tagged(
                "SwitchSession",
                vec![("session_id", Value::from(session_id.as_str()))],
            ),
            ClientMsg::Resize { cols, rows } => tagged(
                "Resize",
                vec![("cols", Value::from(*cols)), ("rows", Value::from(*rows))],
            ),
            ClientMsg::Detach => Value::from("Detach"),
        }
    }

    fn from_value(value: &Value) -> Option<Self> {
        if value == "Detach" {
            return Some(ClientMsg::Detach);
        }
        if let Some(m) = value.get("KeyInput") {
            return Some(ClientMsg::KeyInput { bytes: value_bytes(&m["bytes"])? });
        }
        if let Some(m) = value.get("SwitchSession") {
            return Some(ClientMsg::SwitchSession { session_id: m["session_id"].as_str()?.to_string() });
        }
        let m = value.get("Resize")?;
        Some(ClientMsg::Resize { cols: small(&m["cols"])?, rows: small(&m["rows"])? })
    }
}

fn encode_message<T: Wire>(msg: &T) -> Vec<u8> {
    protocol::encode_message(msg.to_value().to_string().as_bytes())
}

fn decode_message<T: Wire>(buf: &[u8]) -> Option<(T, usize)> {
    let (payload, consumed) = protocol::decode_message(buf)?;
    let value = serde_json::from_slice(&payload).ok()?;
    Some((T::from_value(&value)?, consumed))
}

#[test]
fn test_encode_decode_server_msg() {
    let msg = ServerMsg::ScreenUpdate {
        screen_data: b"hello".to_vec(),
        cursor_row: 1,
        cursor_col: 5,
    };
    let encoded = encode_message(&msg);
    let (decoded, consumed): (ServerMsg, usize) = decode_message(&encoded).unwrap();
    assert_eq!(consumed, encoded.len());
    match decoded {
        ServerMsg::ScreenUpdate { screen_data, cursor_row, cursor_col } => {
            assert_eq!(screen_data, b"hello");
            assert_eq!(cursor_row, 1);
            assert_eq!(cursor_col, 5);
        }
        _ => panic!("wrong variant"),
    }
}

#[test]
fn test_encode_decode_client_msg() {
    let msg = ClientMsg::KeyInput { bytes: vec![0x1b, b'[', b'A'] };
    let encoded = encode_message(&msg);
    let (decoded, _): (ClientMsg, usize) = decode_message(&encoded).unwrap();
    match decoded {
        ClientMsg::KeyInput { bytes } => assert_eq!(bytes, vec![0x1b, b'[', b'A']),
        _ => panic!("wrong variant"),
    }
}

#[test]
fn test_decode_incomplete() {
    let result: Option<(ServerMsg, usize)> = decode_message(&[0, 0, 0]);
    assert!(result.is_none());
}

#[test]
fn test_decode_partial_payload() {
    let msg = ServerMsg::Goodbye;
    let encoded = encode_message(&msg);
    // Give only part of the payload
    let partial = &encoded[..encoded.len() - 2];
    let result: Option<(ServerMsg, usize)> = decode_message(partial);
    assert!(result.is_none());
}

#[test]
fn test_session_list_roundtrip() {
    let msg = ServerMsg::SessionList {
        sessions: vec![
            SessionInfo { id: "pty-1".into(), command: "bash".into(), status: "running".into() },
            SessionInfo { id: "pty-2".into(), command: "python".into(), status: "exited(0)".into() },
        ],
        active_id: Some("pty-1".into()),
    };
    let encoded = encode_message(&msg);
    let (decoded, _): (ServerMsg, usize) = decode_message(&encoded).unwrap();
    match decoded {
        ServerMsg::SessionList { sessions, active_id } => {
            assert_eq!(sessions.len(), 2);
            assert_eq!(active_id, Some("pty-1".into()));
        }
        _ => panic!("wrong variant"),
    }
}

#[test]
fn test_multiple_messages_in_buffer() {
    let msg1 = ClientMsg::KeyInput { bytes: b"a".to_vec() };
    let msg2 = ClientMsg::KeyInput { bytes: b"b".to_vec() };
    let mut buf = encode_message(&msg1);
    buf.extend_from_slice(&encode_message(&msg2));

    let (decoded1, consumed1): (ClientMsg, usize) = decode_message(&buf).unwrap();
    let (decoded2, _): (ClientMsg, usize) = decode_message(&buf[consumed1..]).unwrap();

    match decoded1 {
        ClientMsg::KeyInput { bytes } => assert_eq!(bytes, b"a"),
        _ => panic!("expected KeyInput"),
    }
    match decoded2 {
        ClientMsg::KeyInput { bytes } => assert_eq!(bytes, b"b"),
        _ => panic!("expected KeyInput"),
    }
}

#[test]
fn test_goodbye_roundtrip() {
    let msg = ServerMsg::Goodbye;
    let encoded = encode_message(&msg);
    let (decoded, _): (ServerMsg, usize) = decode_message(&encoded).unwrap();
    assert!(matches!(decoded, ServerMsg::Goodbye));
}

#[test]
fn test_detach_roundtrip() {
    let msg = ClientMsg::Detach;
    let encoded = encode_message(&msg);
    let (decoded, _): (ClientMsg, usize) = decode_message(&encoded).unwrap();
    assert!(matches!(decoded, ClientMsg::Detach));
}

#[test]
fn test_resize_roundtrip() {
    let msg = ClientMsg::Resize { cols: 120, rows: 40 };
    let encoded = encode_message(&msg);
    let (decoded, _): (ClientMsg, usize) = decode_message(&encoded).unwrap();
    match decoded {
        ClientMsg::Resize { cols, rows } => {
            assert_eq!(cols, 120);
            assert_eq!(rows, 40);
        }
        _ => panic!("wrong variant"),
    }
}

#[test]
fn test_window_size_roundtrip() {
    let msg = ServerMsg::WindowSize { cols: 80, rows: 24 };
    let encoded = encode_message(&msg);
    let (decoded, _): (ServerMsg, usize) = decode_message(&encoded).unwrap();
    match decoded {
        ServerMsg::WindowSize { cols, rows } => {
            assert_eq!(cols, 80);
            assert_eq!(rows, 24);
        }
        _ => panic!("wrong variant"),
    }
}
