// Tests for platform-specific functionality

use shinkansen::platform::{
    get_line_ending, get_max_path_length, get_platform_config, is_case_sensitive, normalize_path,
};

#[test]
fn test_platform_config_creation() {
    let config = get_platform_config();

    // Basic validation that we get a config
    assert!(config.line_endings.len() > 0);
    assert!(config.max_path_length > 0);
    // case_sensitive can be either true or false depending on platform
}

#[test]
fn test_line_ending_consistency() {
    let line_ending = get_line_ending();
    assert!(!line_ending.is_empty());
    assert!(line_ending == "\n" || line_ending == "\r\n");
}

#[test]
fn test_max_path_length() {
    let max_length = get_max_path_length();
    assert!(max_length > 0);
    // Should be either 260 (Windows) or 4096 (Unix)
    assert!(max_length == 260 || max_length == 4096);
}

#[test]
fn test_case_sensitivity() {
    let case_sensitive = is_case_sensitive();
    // This should be true on Unix, false on Windows
    // We can't test the exact value since it depends on the platform
    // but we can verify it returns a boolean
    assert!(case_sensitive == true || case_sensitive == false);
}

#[test]
fn test_normalize_path() {
    // Test Windows-style paths
    let normalized = normalize_path("C:\\Users\\test\\file.txt");
    assert!(normalized.contains("/"));
    assert!(!normalized.contains("\\"));

    // Test Unix-style paths (should remain unchanged)
    let normalized = normalize_path("/usr/local/bin/file");
    assert_eq!(normalized, "/usr/local/bin/file");

    // Test mixed paths
    let normalized = normalize_path("C:/mixed\\path/file.txt");
    assert!(!normalized.contains("\\"));
    assert!(normalized.contains("/"));
}
