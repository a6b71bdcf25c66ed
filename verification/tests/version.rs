use brix::version::is_newer_version;

#[test]
fn version_compare_detects_newer_releases() {
    assert!(is_newer_version("1.0.0", "1.0.1"));
    assert!(is_newer_version("1.2.9", "1.2.10"));
    assert!(is_newer_version("0.9.9", "1.0.0"));
    assert!(!is_newer_version("1.2.3", "1.2.3"));
    assert!(!is_newer_version("1.2.4", "1.2.3"));
    assert!(!is_newer_version("2.0.0", "1.9.9"));
}
