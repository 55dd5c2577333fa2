//! Predefined sets of capabilities.
use tttt::sandbox::{AccessMode, CapabilitySet, ResolvedPath, SandboxProfile};

fn there(path: &str) -> Option<ResolvedPath> {
    Some(ResolvedPath { path: path.to_string(), is_file: false })
}

#[test]
fn test_readonly_worktree_profile() {
    let profile = SandboxProfile::ReadOnlyWorktree {
        worktree_path: "/tmp".to_string(),
    };
    let caps = profile.to_capability_set(there("/tmp")).unwrap();
    assert!(caps.network_blocked);
    // Should have /tmp as read-only
    let tmp_cap = caps
        .fs_capabilities
        .iter()
        .find(|c| c.original == "/tmp");
    assert!(tmp_cap.is_some());
    assert_eq!(tmp_cap.unwrap().access, AccessMode::Read);
}

#[test]
fn test_readwrite_worktree_profile() {
    let profile = SandboxProfile::ReadWriteWorktree {
        worktree_path: "/tmp".to_string(),
    };
    let caps = profile.to_capability_set(there("/tmp")).unwrap();
    assert!(!caps.network_blocked);
    let tmp_cap = caps
        .fs_capabilities
        .iter()
        .find(|c| c.original == "/tmp");
    assert!(tmp_cap.is_some());
    assert_eq!(tmp_cap.unwrap().access, AccessMode::ReadWrite);
}

#[test]
fn test_own_worktree_profile() {
    let profile = SandboxProfile::OwnWorktree {
        worktree_path: "/tmp".to_string(),
    };
    let caps = profile.to_capability_set(there("/tmp")).unwrap();
    let tmp_cap = caps
        .fs_capabilities
        .iter()
        .find(|c| c.original == "/tmp");
    assert!(tmp_cap.is_some());
    assert_eq!(tmp_cap.unwrap().access, AccessMode::ReadWrite);
}

#[test]
fn test_custom_profile() {
    let custom = CapabilitySet::new()
        .allow_path_unchecked("/custom", AccessMode::Read)
        .block_network();
    let profile = SandboxProfile::Custom(custom);
    let caps = profile.to_capability_set(None).unwrap();
    assert!(caps.network_blocked);
    assert_eq!(caps.fs_capabilities.len(), 1);
}

#[test]
fn test_profile_nonexistent_worktree() {
    let profile = SandboxProfile::ReadOnlyWorktree {
        worktree_path: "/nonexistent/worktree".to_string(),
    };
    assert!(profile.to_capability_set(None).is_err());
}
