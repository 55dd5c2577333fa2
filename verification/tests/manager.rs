//! Sessions under their identifiers and names.
use tttt::backend::MockPty;
use tttt::error::PtyError;
use tttt::manager::{SessionManager, DEFAULT_MAX_SESSIONS};
use tttt::session::PtySession;

fn make_session(id: &str) -> PtySession<MockPty> {
    let mock = MockPty::new(80, 24);
    PtySession::new(id.to_string(), mock, "bash".to_string(), 80, 24)
}

#[test]
fn test_manager_new() {
    let mgr: SessionManager<MockPty> = SessionManager::new();
    assert_eq!(mgr.session_count(), 0);
    assert_eq!(mgr.max_sessions(), DEFAULT_MAX_SESSIONS);
}

#[test]
fn test_manager_with_max_sessions() {
    let mgr: SessionManager<MockPty> = SessionManager::with_max_sessions(5);
    assert_eq!(mgr.max_sessions(), 5);
}

#[test]
fn test_manager_add_session() {
    let mut mgr: SessionManager<MockPty> = SessionManager::new();
    let session = make_session("s1");
    let id = mgr.add_session(session).unwrap();
    assert_eq!(id, "s1");
    assert_eq!(mgr.session_count(), 1);
}

#[test]
fn test_manager_get_session() {
    let mut mgr: SessionManager<MockPty> = SessionManager::new();
    mgr.add_session(make_session("s1")).unwrap();
    let session = mgr.get("s1").unwrap();
    assert_eq!(session.id(), "s1");
}

#[test]
fn test_manager_get_nonexistent() {
    let mgr: SessionManager<MockPty> = SessionManager::new();
    let result = mgr.get("nonexistent");
    assert!(result.is_err());
    match result {
        Err(PtyError::SessionNotFound(id)) => assert_eq!(id, "nonexistent"),
        _ => panic!("expected SessionNotFound"),
    }
}

#[test]
fn test_manager_get_mut() {
    let mut mgr: SessionManager<MockPty> = SessionManager::new();
    mgr.add_session(make_session("s1")).unwrap();
    let session = mgr.get_mut("s1").unwrap();
    session.send_keys("hello").unwrap();
}

#[test]
fn test_manager_kill_session() {
    let mut mgr: SessionManager<MockPty> = SessionManager::new();
    mgr.add_session(make_session("s1")).unwrap();
    mgr.kill_session("s1").unwrap();
    assert_eq!(mgr.session_count(), 0);
    assert!(!mgr.has_session("s1"));
}

#[test]
fn test_manager_kill_nonexistent() {
    let mut mgr: SessionManager<MockPty> = SessionManager::new();
    let result = mgr.kill_session("nope");
    assert!(result.is_err());
}

#[test]
fn test_manager_max_sessions_limit() {
    let mut mgr: SessionManager<MockPty> = SessionManager::with_max_sessions(2);
    mgr.add_session(make_session("s1")).unwrap();
    mgr.add_session(make_session("s2")).unwrap();
    let result = mgr.add_session(make_session("s3"));
    assert!(result.is_err());
    assert!(matches!(result.unwrap_err(), PtyError::MaxSessionsReached(2)));
}

#[test]
fn test_manager_list() {
    let mut mgr: SessionManager<MockPty> = SessionManager::new();
    mgr.add_session(make_session("s1")).unwrap();
    mgr.add_session(make_session("s2")).unwrap();
    let list = mgr.list();
    assert_eq!(list.len(), 2);
    let ids: Vec<&str> = list.iter().map(|m| m.id.as_str()).collect();
    assert!(ids.contains(&"s1"));
    assert!(ids.contains(&"s2"));
}

#[test]
fn test_manager_list_sorted() {
    let mut mgr: SessionManager<MockPty> = SessionManager::new();
    // Add sessions in non-sequential order
    mgr.add_session(make_session("pty-2")).unwrap();
    mgr.add_session(make_session("pty-1")).unwrap();
    mgr.add_session(make_session("pty-10")).unwrap();
    mgr.add_session(make_session("pty-3")).unwrap();
    let list = mgr.list();
    assert_eq!(list.len(), 4);
    // Should be naturally sorted: pty-1, pty-2, pty-3, pty-10
    let ids: Vec<&str> = list.iter().map(|m| m.id.as_str()).collect();
    assert_eq!(ids, vec!["pty-1", "pty-2", "pty-3", "pty-10"]);
}

#[test]
fn test_manager_exists() {
    let mut mgr: SessionManager<MockPty> = SessionManager::new();
    mgr.add_session(make_session("s1")).unwrap();
    assert!(mgr.has_session("s1"));
    assert!(!mgr.has_session("s2"));
}

#[test]
fn test_manager_pump_all() {
    let mut mgr: SessionManager<MockPty> = SessionManager::new();
    let mut mock = MockPty::new(80, 24);
    mock.queue_output(b"output1");
    let session = PtySession::new("s1".to_string(), mock, "bash".to_string(), 80, 24);
    mgr.add_session(session).unwrap();
    mgr.pump_all().unwrap();
    assert!(mgr.get("s1").unwrap().get_screen().contains("output1"));
}

#[test]
fn test_manager_generate_id() {
    let mut mgr: SessionManager<MockPty> = SessionManager::new();
    let id1 = mgr.generate_id();
    let id2 = mgr.generate_id();
    assert_eq!(id1, "pty-1");
    assert_eq!(id2, "pty-2");
}

#[test]
fn test_manager_default() {
    let mgr: SessionManager<MockPty> = SessionManager::default();
    assert_eq!(mgr.session_count(), 0);
    assert_eq!(mgr.max_sessions(), DEFAULT_MAX_SESSIONS);
}
