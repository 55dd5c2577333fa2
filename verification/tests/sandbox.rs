//! Applying a sandbox.
use tttt::sandbox::{apply, is_supported, CapabilitySet};

#[test]
fn test_is_supported() {
    // On macOS and Linux this should be true
    assert!(is_supported("linux"));
    assert!(is_supported("macos"));
    assert!(!is_supported("windows"));
}

#[test]
fn test_apply_placeholder() {
    let caps = CapabilitySet::new();
    apply(&caps).unwrap();
}
