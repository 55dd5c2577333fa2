//! The device that only remembers what it is told.
use tttt::backend::{MockPty, PtyBackend};

#[test]
fn test_mock_pty_write_captures_input() {
    let mut pty = MockPty::new(80, 24);
    pty.write(b"hello").unwrap();
    assert_eq!(pty.input_buf, b"hello");
}

#[test]
fn test_mock_pty_read_returns_queued_output() {
    let mut pty = MockPty::new(80, 24);
    pty.queue_output(b"world");
    let mut buf = [0u8; 32];
    let n = pty.read(&mut buf).unwrap();
    assert_eq!(n, 5);
    assert_eq!(&buf[..n], b"world");
}

#[test]
fn test_mock_pty_read_empty_returns_zero() {
    let mut pty = MockPty::new(80, 24);
    let mut buf = [0u8; 32];
    let n = pty.read(&mut buf).unwrap();
    assert_eq!(n, 0);
}

#[test]
fn test_mock_pty_write_read_roundtrip() {
    let mut pty = MockPty::new(80, 24);
    pty.write(b"input data").unwrap();
    assert_eq!(pty.input_buf, b"input data");

    pty.queue_output(b"output data");
    let mut buf = [0u8; 32];
    let n = pty.read(&mut buf).unwrap();
    assert_eq!(&buf[..n], b"output data");
}

#[test]
fn test_mock_pty_exit_code_none_initially() {
    let mut pty = MockPty::new(80, 24);
    assert_eq!(pty.try_wait().unwrap(), None);
}

#[test]
fn test_mock_pty_exit_code_set() {
    let mut pty = MockPty::new(80, 24);
    pty.exit_code = Some(0);
    assert_eq!(pty.try_wait().unwrap(), Some(0));
}

#[test]
fn test_mock_pty_kill_sets_exit_code() {
    let mut pty = MockPty::new(80, 24);
    pty.kill().unwrap();
    assert!(pty.killed);
    assert_eq!(pty.try_wait().unwrap(), Some(137));
}

#[test]
fn test_mock_pty_resize() {
    let mut pty = MockPty::new(80, 24);
    pty.resize(120, 40).unwrap();
    assert_eq!(pty.cols, 120);
    assert_eq!(pty.rows, 40);
}

#[test]
fn test_mock_pty_partial_read() {
    let mut pty = MockPty::new(80, 24);
    pty.queue_output(b"long output data here");
    let mut buf = [0u8; 4];
    let n = pty.read(&mut buf).unwrap();
    assert_eq!(n, 4);
    assert_eq!(&buf[..n], b"long");
    // remaining data still in buffer
    let n = pty.read(&mut buf).unwrap();
    assert_eq!(n, 4);
    assert_eq!(&buf[..n], b" out");
}

#[test]
fn test_mock_pty_kill_with_escalation_immediate_exit() {
    // Process exits immediately on SIGTERM (no delay needed).
    let mut pty = MockPty::new(80, 24);
    assert!(!pty.escalation_killed);
    assert!(pty.exit_code.is_none());

    pty.kill_with_escalation().unwrap();

    assert!(pty.escalation_killed);
    // The mock sets exit_code when no delay is configured.
    assert!(pty.try_wait().unwrap().is_some());
}

#[test]
fn test_mock_pty_kill_with_escalation_delayed_exit() {
    // Simulate a process that ignores SIGTERM but exits after several try_wait calls
    // (as if it eventually dies to SIGKILL).
    let mut pty = MockPty::new(80, 24);
    // Process will "exit" on the 5th try_wait call.
    pty.exit_after_n_waits = Some(5);

    // Before kill, process is still alive.
    assert!(pty.exit_code.is_none());

    pty.kill_with_escalation().unwrap();
    assert!(pty.escalation_killed);

    // Not yet exited (exit_after_n_waits = 5, but kill_with_escalation doesn't wait).
    // Manual polling simulates the escalation loop.
    let mut exited = false;
    for _ in 0..10 {
        if pty.try_wait().unwrap().is_some() {
            exited = true;
            break;
        }
    }
    assert!(exited, "process should have exited within 10 try_wait calls");
}

#[test]
fn test_mock_pty_default_kill_with_escalation_delegates_to_kill() {
    // The default trait impl delegates kill_with_escalation() to kill().
    // MockPty overrides it, so we verify the MockPty override via kill().
    let mut pty = MockPty::new(80, 24);
    pty.kill().unwrap();
    assert!(pty.killed);
    assert_eq!(pty.try_wait().unwrap(), Some(137));
}
