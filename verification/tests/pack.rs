use rowforge::pack::{bundle_runtimes, check_handlers, is_root_binary, parse_target, render_readme};

#[test]
fn parse_target_known() {
    assert_eq!(parse_target("linux-x86_64").unwrap().triple, "x86_64-unknown-linux-gnu");
    assert_eq!(parse_target("darwin-arm64").unwrap().triple, "aarch64-apple-darwin");
    assert_eq!(parse_target("linux-aarch64").unwrap().triple, "aarch64-unknown-linux-gnu");
}

#[test]
fn parse_target_unknown() {
    let err = parse_target("freebsd-x86_64").err().unwrap();
    assert!(err.contains("unknown --target"));
}

#[test]
fn pack_rejects_unknown_target() {
    let res = parse_target("freebsd-x86_64");
    assert!(res.is_err(), "expected Err for unknown target, got {:?}", res.is_ok());
}

#[test]
fn readme_lists_runtimes() {
    let summaries: Vec<(String, String, String, String)> = vec![
        ("h1".into(), "0.0.1".into(), "first handler".into(), "python".into()),
        ("h2".into(), "0.0.1".into(), "second handler".into(), "go".into()),
    ];
    let runtimes = bundle_runtimes(&summaries);
    let target = parse_target("linux-x86_64").unwrap();
    let r = render_readme(&target, &summaries, &runtimes);
    assert!(r.contains("python"));
    assert!(r.contains("go"));
    assert!(r.contains("h1 0.0.1"));
    assert!(r.contains("linux-x86_64"));
}

#[test]
fn unknown_target_message_lists_supported_targets() {
    let err = parse_target("win").err().unwrap();
    assert_eq!(err, "unknown --target 'win'. Supported: darwin-arm64, linux-x86_64, linux-aarch64");
}

#[test]
fn target_alias_and_suffix() {
    let t = parse_target("darwin-arm64").unwrap();
    assert_eq!(t.alias, "darwin-arm64");
    assert_eq!(t.bin_suffix, "");
}

#[test]
fn runtimes_are_sorted_distinct_and_skip_empty_languages() {
    let summaries: Vec<(String, String, String, String)> = vec![
        ("a".into(), "1".into(), "".into(), "python".into()),
        ("b".into(), "1".into(), "".into(), "".into()),
        ("c".into(), "1".into(), "".into(), "go".into()),
        ("d".into(), "1".into(), "".into(), "python".into()),
        ("e".into(), "1".into(), "".into(), "Rust".into()),
    ];
    assert_eq!(bundle_runtimes(&summaries), vec!["Rust".to_string(), "go".to_string(), "python".to_string()]);
}

#[test]
fn readme_exact_text() {
    let summaries: Vec<(String, String, String, String)> = vec![
        ("h1".into(), "0.0.1".into(), "".into(), "".into()),
        ("h2".into(), "1.2.3".into(), "does things".into(), "go".into()),
    ];
    let target = parse_target("linux-aarch64").unwrap();
    let r = render_readme(&target, &summaries, &vec!["go".to_string()]);
    let expected = "# rowforge bundle (linux-aarch64)\n\n\
Unzip and run:\n\n```\n./rowforge run --handler handlers/<name> --input data.csv --output-dir ./out\n```\n\n\
## Handlers\n\n\
- **h1 0.0.1** (n/a) \u{2014} (no description)\n\
- **h2 1.2.3** (go) \u{2014} does things\n\
\n## Recipient runtime requirements\n\n\
Install these on the target machine before running handlers:\n\n\
- go\n";
    assert_eq!(r, expected);
}

#[test]
fn readme_without_runtimes_has_no_requirements_section() {
    let summaries: Vec<(String, String, String, String)> = vec![("h".into(), "1".into(), "d".into(), "".into())];
    let target = parse_target("linux-x86_64").unwrap();
    let r = render_readme(&target, &summaries, &Vec::new());
    assert!(!r.contains("Recipient runtime requirements"));
    assert!(r.ends_with("- **h 1** (n/a) \u{2014} d\n"));
}

#[test]
fn bundle_needs_a_handler() {
    assert_eq!(check_handlers(&Vec::new()), Err("at least one --handler is required".to_string()));
    assert_eq!(check_handlers(&vec!["h".to_string()]), Ok(()));
}

#[test]
fn root_binary_names() {
    assert!(is_root_binary("rowforge"));
    assert!(is_root_binary("rowforge.exe"));
    assert!(!is_root_binary("handlers/rowforge"));
}
