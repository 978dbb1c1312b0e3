use rowforge::handler_build::{binary_relative_path, build_exit_code, build_needed, is_source_extension, newest_source_mtime};

const SEC: u128 = 1_000_000_000;

#[test]
fn needs_build_false_when_no_build_command() {
    assert!(!build_needed(false, Some("./handler"), false, None, None));
    assert!(!build_needed(true, None, false, None, None));
}

#[test]
fn needs_build_false_when_cmd_is_absolute_path() {
    assert!(!build_needed(true, Some("/usr/bin/python3"), false, None, None));
}

#[test]
fn needs_build_false_when_cmd_is_path_executable() {
    assert!(!build_needed(true, Some("sh"), true, None, None));
}

#[test]
fn needs_build_true_when_binary_missing() {
    let newest = newest_source_mtime(&vec![("go".to_string(), 5 * SEC)]);
    assert!(build_needed(true, Some("./handler"), false, None, newest));
}

#[test]
fn needs_build_true_when_source_newer_than_binary() {
    let files = vec![("".to_string(), 1_000_000 * SEC), ("go".to_string(), 2_000_000 * SEC)];
    let newest = newest_source_mtime(&files);
    assert!(build_needed(true, Some("./handler"), false, Some(1_000_000 * SEC), newest));
}

#[test]
fn needs_build_false_when_binary_newer_than_source() {
    let files = vec![("".to_string(), 2_000_000 * SEC), ("go".to_string(), 1_000_000 * SEC)];
    let newest = newest_source_mtime(&files);
    assert!(!build_needed(true, Some("./handler"), false, Some(2_000_000 * SEC), newest));
}

#[test]
fn missing_binary_builds() {
    assert!(build_needed(true, Some("./bin/handler"), false, None, None));
    assert!(build_needed(true, Some("handler"), false, None, None));
}

#[test]
fn stale_binary_builds() {
    assert!(build_needed(true, Some("./bin/handler"), false, Some(10), Some(11)));
    assert!(!build_needed(true, Some("./bin/handler"), false, Some(10), Some(10)));
    assert!(!build_needed(true, Some("./bin/handler"), false, Some(10), None));
}

#[test]
fn newest_source_ignores_other_files() {
    let files = vec![
        ("go".to_string(), 5u128),
        ("md".to_string(), 50u128),
        ("rs".to_string(), 9u128),
        ("".to_string(), 70u128),
    ];
    assert_eq!(newest_source_mtime(&files), Some(9));
    assert_eq!(newest_source_mtime(&vec![("txt".to_string(), 3u128)]), None);
    assert!(is_source_extension("hpp"));
    assert!(!is_source_extension("yaml"));
}

#[test]
fn binary_path_drops_leading_dot_slashes() {
    assert_eq!(binary_relative_path("./bin/h"), "bin/h");
    assert_eq!(binary_relative_path("././h"), "h");
    assert_eq!(binary_relative_path("bin/./h"), "bin/./h");
    assert_eq!(binary_relative_path("."), ".");
}

#[test]
fn build_failures_cap_the_exit_code() {
    assert_eq!(build_exit_code(0), 0);
    assert_eq!(build_exit_code(3), 3);
    assert_eq!(build_exit_code(400), 125);
}
