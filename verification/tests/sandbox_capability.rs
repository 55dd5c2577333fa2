//! What a sandboxed agent may touch.
use tttt::sandbox::{AccessMode, CapabilitySet, ResolvedPath};

fn there(path: &str) -> Option<ResolvedPath> {
    Some(ResolvedPath { path: path.to_string(), is_file: false })
}

#[test]
fn test_capability_set_new_empty() {
    let caps = CapabilitySet::new();
    assert!(caps.fs_capabilities.is_empty());
    assert!(!caps.network_blocked);
}

#[test]
fn test_allow_path_read() {
    let caps = CapabilitySet::new().allow_path("/tmp", there("/tmp"), AccessMode::Read).unwrap();
    assert_eq!(caps.fs_capabilities.len(), 1);
    assert_eq!(caps.fs_capabilities[0].access, AccessMode::Read);
}

#[test]
fn test_allow_path_readwrite() {
    let caps = CapabilitySet::new()
        .allow_path("/tmp", there("/tmp"), AccessMode::ReadWrite)
        .unwrap();
    assert_eq!(caps.fs_capabilities[0].access, AccessMode::ReadWrite);
}

#[test]
fn test_allow_path_nonexistent() {
    let result = CapabilitySet::new().allow_path("/nonexistent/path/xyz", None, AccessMode::Read);
    assert!(result.is_err());
}

#[test]
fn test_allow_path_unchecked() {
    let caps = CapabilitySet::new().allow_path_unchecked("/future/path", AccessMode::Write);
    assert_eq!(caps.fs_capabilities.len(), 1);
}

#[test]
fn test_block_network() {
    let caps = CapabilitySet::new().block_network();
    assert!(caps.network_blocked);
}

#[test]
fn test_access_mode_contains() {
    assert!(AccessMode::ReadWrite.contains(AccessMode::Read));
    assert!(AccessMode::ReadWrite.contains(AccessMode::Write));
    assert!(AccessMode::ReadWrite.contains(AccessMode::ReadWrite));
    assert!(AccessMode::Read.contains(AccessMode::Read));
    assert!(!AccessMode::Read.contains(AccessMode::Write));
    assert!(!AccessMode::Read.contains(AccessMode::ReadWrite));
    assert!(AccessMode::Write.contains(AccessMode::Write));
    assert!(!AccessMode::Write.contains(AccessMode::Read));
}

#[test]
fn test_path_covered() {
    let caps = CapabilitySet::new().allow_path("/tmp", there("/tmp"), AccessMode::Read).unwrap();
    assert!(caps.path_covered("/tmp"));
}

#[test]
fn test_path_not_covered() {
    let caps = CapabilitySet::new().allow_path("/tmp", there("/tmp"), AccessMode::Read).unwrap();
    // /usr is not covered by /tmp
    assert!(!caps.path_covered("/usr"));
}

#[test]
fn test_path_covered_with_access() {
    let caps = CapabilitySet::new().allow_path("/tmp", there("/tmp"), AccessMode::Read).unwrap();
    assert!(caps.path_covered_with_access("/tmp", AccessMode::Read));
    assert!(!caps.path_covered_with_access("/tmp", AccessMode::Write));
}

#[test]
fn test_chaining() {
    let caps = CapabilitySet::new()
        .allow_path("/tmp", there("/tmp"), AccessMode::Read)
        .unwrap()
        .allow_path("/usr", there("/usr"), AccessMode::Read)
        .unwrap()
        .block_network();
    assert_eq!(caps.fs_capabilities.len(), 2);
    assert!(caps.network_blocked);
}
