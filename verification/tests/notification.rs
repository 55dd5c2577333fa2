//! Watching screens for patterns.
use tttt::notification::NotificationRegistry;

#[test]
fn test_add_watcher() {
    let mut reg = NotificationRegistry::new();
    let id = reg
        .add_watcher(
            "pty-1".into(),
            r"❯\s*$",
            "[NOTIFICATION] Executor done".into(),
            "root".into(),
            true,
        )
        .unwrap();
    assert_eq!(id, "notify-1");
    assert_eq!(reg.watcher_count(), 1);
}

#[test]
fn test_add_watcher_invalid_regex() {
    let mut reg = NotificationRegistry::new();
    let result = reg.add_watcher("pty-1".into(), "[invalid", "text".into(), "root".into(), true);
    assert!(result.is_err());
}

#[test]
fn test_remove_watcher() {
    let mut reg = NotificationRegistry::new();
    let id = reg
        .add_watcher("pty-1".into(), "prompt", "text".into(), "root".into(), true)
        .unwrap();
    assert!(reg.remove_watcher(&id));
    assert_eq!(reg.watcher_count(), 0);
}

#[test]
fn test_remove_nonexistent_watcher() {
    let mut reg = NotificationRegistry::new();
    assert!(!reg.remove_watcher("nope"));
}

#[test]
fn test_check_session_first_call_snapshots() {
    let mut reg = NotificationRegistry::new();
    reg.add_watcher("pty-1".into(), "❯", "notify".into(), "root".into(), true)
        .unwrap();
    // First call: snapshot only, no match even if pattern is present
    let injections = reg.check_session("pty-1", "❯ ");
    assert!(injections.is_empty());
    assert_eq!(reg.watcher_count(), 1);
}

#[test]
fn test_check_session_no_match() {
    let mut reg = NotificationRegistry::new();
    reg.add_watcher("pty-1".into(), "❯", "notify".into(), "root".into(), true)
        .unwrap();
    let _ = reg.check_session("pty-1", "Thinking..."); // snapshot
    let injections = reg.check_session("pty-1", "Thinking... still");
    assert!(injections.is_empty());
    assert_eq!(reg.watcher_count(), 1); // still active
}

#[test]
fn test_check_session_match() {
    let mut reg = NotificationRegistry::new();
    reg.add_watcher("pty-1".into(), "❯", "[DONE]".into(), "root".into(), true)
        .unwrap();
    let _ = reg.check_session("pty-1", "output here\n"); // snapshot
    let injections = reg.check_session("pty-1", "output here\n❯ ");
    assert_eq!(injections.len(), 1);
    assert_eq!(injections[0].text, "[DONE]");
    assert_eq!(injections[0].target_session_id, "root");
}

#[test]
fn test_one_shot_removed_after_fire() {
    let mut reg = NotificationRegistry::new();
    reg.add_watcher("pty-1".into(), "❯", "notify".into(), "root".into(), true)
        .unwrap();
    let _ = reg.check_session("pty-1", ""); // snapshot
    let _ = reg.check_session("pty-1", "❯ "); // fires
    assert_eq!(reg.watcher_count(), 0); // removed after firing
}

#[test]
fn test_recurring_watcher_not_removed() {
    let mut reg = NotificationRegistry::new();
    reg.add_watcher("pty-1".into(), "❯", "notify".into(), "root".into(), false)
        .unwrap();
    let _ = reg.check_session("pty-1", ""); // snapshot
    let injections = reg.check_session("pty-1", "❯ ");
    assert_eq!(injections.len(), 1);
    assert_eq!(reg.watcher_count(), 1); // still active (recurring)
}

#[test]
fn test_recurring_fires_again_on_new_content() {
    let mut reg = NotificationRegistry::new();
    reg.add_watcher("pty-1".into(), "❯", "ping".into(), "root".into(), false)
        .unwrap();

    let _ = reg.check_session("pty-1", ""); // snapshot
    // New content with pattern — fires
    let inj1 = reg.check_session("pty-1", "❯ ");
    assert_eq!(inj1.len(), 1);

    // Same screen — no new content, should not fire again
    let inj2 = reg.check_session("pty-1", "❯ ");
    assert_eq!(inj2.len(), 0);

    // New content with pattern again — fires
    let inj3 = reg.check_session("pty-1", "❯ \nnew output\n❯ ");
    assert_eq!(inj3.len(), 1);
}

#[test]
fn test_pattern_present_at_registration_does_not_fire_immediately() {
    let mut reg = NotificationRegistry::new();
    reg.add_watcher("pty-1".into(), "next slide", "advance".into(), "root".into(), true)
        .unwrap();
    // Pattern already on screen when registered — should not fire
    let inj = reg.check_session("pty-1", "All right\nNext slide\nOkay");
    assert!(inj.is_empty());
    assert_eq!(reg.watcher_count(), 1); // still waiting
}

#[test]
fn test_check_wrong_session() {
    let mut reg = NotificationRegistry::new();
    reg.add_watcher("pty-1".into(), "❯", "notify".into(), "root".into(), true)
        .unwrap();
    let injections = reg.check_session("pty-2", "❯ "); // wrong session
    assert!(injections.is_empty());
    assert_eq!(reg.watcher_count(), 1); // unchanged
}

#[test]
fn test_multiple_watchers() {
    let mut reg = NotificationRegistry::new();
    reg.add_watcher("pty-1".into(), "❯", "done1".into(), "root".into(), true)
        .unwrap();
    reg.add_watcher("pty-2".into(), "\\$", "done2".into(), "root".into(), true)
        .unwrap();
    reg.add_watcher("pty-1".into(), "error", "err".into(), "root".into(), true)
        .unwrap();

    let _ = reg.check_session("pty-1", "some output\n"); // snapshot
    let injections = reg.check_session("pty-1", "some output\n❯ ");
    assert_eq!(injections.len(), 1);
    assert_eq!(injections[0].text, "done1");
    assert_eq!(reg.watcher_count(), 2); // one removed, two remain
}

#[test]
fn test_list_watchers() {
    let mut reg = NotificationRegistry::new();
    reg.add_watcher("pty-1".into(), "a", "x".into(), "root".into(), true)
        .unwrap();
    reg.add_watcher("pty-2".into(), "b", "y".into(), "root".into(), false)
        .unwrap();
    let watchers = reg.list_watchers();
    assert_eq!(watchers.len(), 2);
    assert_eq!(watchers[0].watch_session_id, "pty-1");
    assert_eq!(watchers[1].watch_session_id, "pty-2");
}

#[test]
fn test_regex_pattern_matching() {
    let mut reg = NotificationRegistry::new();
    // Match the spinner of a coding agent
    reg.add_watcher(
        "pty-1".into(),
        "[⏺✻✶✳✽·✢]",
        "busy".into(),
        "root".into(),
        false,
    )
    .unwrap();

    let _ = reg.check_session("pty-1", ""); // snapshot
    let inj = reg.check_session("pty-1", "⏺ Thinking...");
    assert_eq!(inj.len(), 1);

    let inj = reg.check_session("pty-1", "normal output");
    assert!(inj.is_empty());
}
