//! Input from the keyboard and the mouse.
use tttt::input::{parse_sgr_mouse, DisplayConfig, InputEvent, InputParser, MouseButton, RawInput};

fn parser() -> InputParser {
    InputParser::new(DisplayConfig::default())
}

fn input(bytes: &[u8]) -> RawInput {
    RawInput {
        bytes: bytes.to_vec(),
    }
}

#[test]
fn test_regular_input_passthrough() {
    let mut p = parser();
    let events = p.process(&input(b"hello"));
    assert_eq!(events, vec![InputEvent::PassThrough(b"hello".to_vec())]);
}

#[test]
fn test_prefix_key_arms() {
    let mut p = parser();
    let events = p.process(&input(&[0x1c]));
    assert!(events.is_empty()); // prefix consumed, waiting for follow-up
    assert!(p.is_prefix_armed());
}

#[test]
fn test_prefix_then_digit_switches() {
    let mut p = parser();
    let events = p.process(&input(&[0x1c, b'1']));
    assert_eq!(events, vec![InputEvent::SwitchTerminal(1)]);
    assert!(!p.is_prefix_armed());
}

#[test]
fn test_prefix_then_zero() {
    let mut p = parser();
    let events = p.process(&input(&[0x1c, b'0']));
    assert_eq!(events, vec![InputEvent::SwitchTerminal(0)]);
}

#[test]
fn test_prefix_then_n_next() {
    let mut p = parser();
    let events = p.process(&input(&[0x1c, b'n']));
    assert_eq!(events, vec![InputEvent::NextTerminal]);
}

#[test]
fn test_prefix_then_p_prev() {
    let mut p = parser();
    let events = p.process(&input(&[0x1c, b'p']));
    assert_eq!(events, vec![InputEvent::PrevTerminal]);
}

#[test]
fn test_prefix_then_question_help() {
    let mut p = parser();
    let events = p.process(&input(&[0x1c, b'?']));
    assert_eq!(events, vec![InputEvent::ShowHelp]);
}

#[test]
fn test_prefix_then_d_detach() {
    let mut p = parser();
    let events = p.process(&input(&[0x1c, b'd']));
    assert_eq!(events, vec![InputEvent::Detach]);
}

#[test]
fn test_prefix_then_prefix_escape() {
    let mut p = parser();
    let events = p.process(&input(&[0x1c, 0x1c]));
    assert_eq!(events, vec![InputEvent::PassThrough(vec![0x1c])]);
}

#[test]
fn test_prefix_then_unknown_discards() {
    let mut p = parser();
    let events = p.process(&input(&[0x1c, b'x']));
    assert!(events.is_empty());
}

#[test]
fn test_prefix_across_two_calls() {
    let mut p = parser();
    let events1 = p.process(&input(&[0x1c]));
    assert!(events1.is_empty());
    assert!(p.is_prefix_armed());
    let events2 = p.process(&input(&[b'1']));
    assert_eq!(events2, vec![InputEvent::SwitchTerminal(1)]);
}

#[test]
fn test_mixed_input_with_prefix() {
    let mut p = parser();
    let events = p.process(&input(&[b'a', b'b', 0x1c, b'1', b'c']));
    assert_eq!(
        events,
        vec![
            InputEvent::PassThrough(b"ab".to_vec()),
            InputEvent::SwitchTerminal(1),
            InputEvent::PassThrough(b"c".to_vec()),
        ]
    );
}

#[test]
fn test_cancel_prefix() {
    let mut p = parser();
    p.process(&input(&[0x1c]));
    assert!(p.is_prefix_armed());
    p.cancel_prefix();
    assert!(!p.is_prefix_armed());
}

#[test]
fn test_custom_prefix_key() {
    let config = DisplayConfig {
        prefix_key: 0x01, // Ctrl+A
        ..Default::default()
    };
    let mut p = InputParser::new(config);
    let events = p.process(&input(&[0x01, b'n']));
    assert_eq!(events, vec![InputEvent::NextTerminal]);
}

#[test]
fn test_empty_input() {
    let mut p = parser();
    let events = p.process(&input(&[]));
    assert!(events.is_empty());
}

#[test]
fn test_prefix_then_c_create_terminal() {
    let mut p = parser();
    let events = p.process(&input(&[0x1c, b'c']));
    assert_eq!(events, vec![InputEvent::CreateTerminal]);
}

#[test]
fn test_prefix_then_C_create_terminal_uppercase() {
    let mut p = parser();
    let events = p.process(&input(&[0x1c, b'C']));
    assert_eq!(events, vec![InputEvent::CreateTerminal]);
}

#[test]
fn test_prefix_then_r_reload() {
    let mut p = parser();
    let events = p.process(&input(&[0x1c, b'r']));
    assert_eq!(events, vec![InputEvent::Reload]);
}

#[test]
fn test_prefix_then_R_reload_uppercase() {
    let mut p = parser();
    let events = p.process(&input(&[0x1c, b'R']));
    assert_eq!(events, vec![InputEvent::Reload]);
}

#[test]
fn test_config_defaults() {
    let config = DisplayConfig::default();
    assert_eq!(config.sidebar_width, 30);
    assert_eq!(config.prefix_key, 0x1c);
    assert!(config.status_line);
}

// --- SGR mouse parsing tests ---

#[test]
fn test_parse_sgr_mouse_left_press() {
    let bytes = b"\x1b[<0;10;5M";
    let (event, consumed) = parse_sgr_mouse(bytes).unwrap();
    assert_eq!(consumed, bytes.len());
    assert_eq!(
        event,
        InputEvent::MousePress {
            button: MouseButton::Left,
            col: 9,
            row: 4
        }
    );
}

#[test]
fn test_parse_sgr_mouse_left_release() {
    let bytes = b"\x1b[<0;10;5m";
    let (event, consumed) = parse_sgr_mouse(bytes).unwrap();
    assert_eq!(consumed, bytes.len());
    assert_eq!(event, InputEvent::MouseRelease { col: 9, row: 4 });
}

#[test]
fn test_parse_sgr_mouse_left_drag() {
    let bytes = b"\x1b[<32;15;5M";
    let (event, consumed) = parse_sgr_mouse(bytes).unwrap();
    assert_eq!(consumed, bytes.len());
    assert_eq!(
        event,
        InputEvent::MouseDrag {
            button: MouseButton::Left,
            col: 14,
            row: 4
        }
    );
}

#[test]
fn test_parse_sgr_mouse_scroll_up() {
    let bytes = b"\x1b[<64;10;5M";
    let (event, consumed) = parse_sgr_mouse(bytes).unwrap();
    assert_eq!(consumed, bytes.len());
    assert_eq!(event, InputEvent::ScrollUp { col: 9, row: 4 });
}

#[test]
fn test_parse_sgr_mouse_scroll_down() {
    let bytes = b"\x1b[<65;10;5M";
    let (event, consumed) = parse_sgr_mouse(bytes).unwrap();
    assert_eq!(consumed, bytes.len());
    assert_eq!(event, InputEvent::ScrollDown { col: 9, row: 4 });
}

#[test]
fn test_parse_sgr_mouse_right_press() {
    let bytes = b"\x1b[<2;5;3M";
    let (event, consumed) = parse_sgr_mouse(bytes).unwrap();
    assert_eq!(consumed, bytes.len());
    assert_eq!(
        event,
        InputEvent::MousePress {
            button: MouseButton::Right,
            col: 4,
            row: 2
        }
    );
}

#[test]
fn test_parse_sgr_mouse_middle_press() {
    let bytes = b"\x1b[<1;3;7M";
    let (event, consumed) = parse_sgr_mouse(bytes).unwrap();
    assert_eq!(consumed, bytes.len());
    assert_eq!(
        event,
        InputEvent::MousePress {
            button: MouseButton::Middle,
            col: 2,
            row: 6
        }
    );
}

#[test]
fn test_parse_sgr_mouse_not_mouse_sequence() {
    let bytes = b"hello";
    assert!(parse_sgr_mouse(bytes).is_none());
}

#[test]
fn test_parse_sgr_mouse_incomplete() {
    let bytes = b"\x1b[<0;10;";
    assert!(parse_sgr_mouse(bytes).is_none());
}

#[test]
fn test_parse_sgr_mouse_large_coordinates() {
    let bytes = b"\x1b[<0;200;100M";
    let (event, consumed) = parse_sgr_mouse(bytes).unwrap();
    assert_eq!(consumed, bytes.len());
    assert_eq!(
        event,
        InputEvent::MousePress {
            button: MouseButton::Left,
            col: 199,
            row: 99
        }
    );
}

#[test]
fn test_parse_sgr_mouse_coordinate_zero_clamped() {
    // px=0 and py=0 are invalid in SGR (1-indexed), saturating_sub clamps to 0
    let bytes = b"\x1b[<0;0;0M";
    let (event, consumed) = parse_sgr_mouse(bytes).unwrap();
    assert_eq!(consumed, bytes.len());
    assert_eq!(
        event,
        InputEvent::MousePress {
            button: MouseButton::Left,
            col: 0,
            row: 0
        }
    );
}

// --- InputParser integration tests for mouse events ---

#[test]
fn test_process_mouse_press() {
    let mut p = parser();
    let events = p.process(&input(b"\x1b[<0;10;5M"));
    assert_eq!(
        events,
        vec![InputEvent::MousePress {
            button: MouseButton::Left,
            col: 9,
            row: 4
        }]
    );
}

#[test]
fn test_process_mouse_release() {
    let mut p = parser();
    let events = p.process(&input(b"\x1b[<0;10;5m"));
    assert_eq!(events, vec![InputEvent::MouseRelease { col: 9, row: 4 }]);
}

#[test]
fn test_process_scroll_up() {
    let mut p = parser();
    let events = p.process(&input(b"\x1b[<64;5;3M"));
    assert_eq!(events, vec![InputEvent::ScrollUp { col: 4, row: 2 }]);
}

#[test]
fn test_process_scroll_down() {
    let mut p = parser();
    let events = p.process(&input(b"\x1b[<65;5;3M"));
    assert_eq!(events, vec![InputEvent::ScrollDown { col: 4, row: 2 }]);
}

#[test]
fn test_process_mixed_text_and_mouse() {
    // "hi" + mouse press + "bye" → PassThrough("hi") + MousePress + PassThrough("bye")
    let mut p = parser();
    let mut bytes = b"hi".to_vec();
    bytes.extend_from_slice(b"\x1b[<0;10;5M");
    bytes.extend_from_slice(b"bye");
    let events = p.process(&input(&bytes));
    assert_eq!(
        events,
        vec![
            InputEvent::PassThrough(b"hi".to_vec()),
            InputEvent::MousePress {
                button: MouseButton::Left,
                col: 9,
                row: 4
            },
            InputEvent::PassThrough(b"bye".to_vec()),
        ]
    );
}

#[test]
fn test_process_incomplete_mouse_buffered_then_completed() {
    let mut p = parser();
    // First call: send only the start of the sequence
    let partial = b"\x1b[<0;10;";
    let events1 = p.process(&input(partial));
    // No events yet — incomplete sequence buffered
    assert!(events1.is_empty());

    // Second call: send the remainder
    let events2 = p.process(&input(b"5M"));
    assert_eq!(
        events2,
        vec![InputEvent::MousePress {
            button: MouseButton::Left,
            col: 9,
            row: 4
        }]
    );
}

#[test]
fn test_process_two_consecutive_mouse_events() {
    let mut p = parser();
    let mut bytes = b"\x1b[<0;1;1M".to_vec();
    bytes.extend_from_slice(b"\x1b[<32;2;1M");
    let events = p.process(&input(&bytes));
    assert_eq!(
        events,
        vec![
            InputEvent::MousePress {
                button: MouseButton::Left,
                col: 0,
                row: 0
            },
            InputEvent::MouseDrag {
                button: MouseButton::Left,
                col: 1,
                row: 0
            },
        ]
    );
}
