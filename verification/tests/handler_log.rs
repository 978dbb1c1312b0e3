use rowforge::handler_log::{format_line, handler_log_path, parse_line, HandlerLogLine, HandlerStream};

#[test]
fn handler_log_path_appends_filename() {
    let p = handler_log_path("/tmp/exec/attempt1");
    assert_eq!(p, "/tmp/exec/attempt1/handler_log.log");
}

#[test]
fn handler_log_path_keeps_a_single_separator() {
    assert_eq!(handler_log_path("/tmp/exec/attempt1/"), "/tmp/exec/attempt1/handler_log.log");
    assert_eq!(handler_log_path(""), "handler_log.log");
}

#[test]
fn format_and_parse_round_trip() {
    let line = HandlerLogLine {
        timestamp: "2026-05-25T10:00:01.234+00:00".to_string(),
        worker_id: 3,
        stream: HandlerStream::Stderr,
        line: "connecting to db...".into(),
    };
    let formatted = format_line(&line);
    let parsed = parse_line(&formatted).expect("parse ok");
    assert_eq!(parsed.worker_id, 3);
    assert_eq!(parsed.stream, HandlerStream::Stderr);
    assert_eq!(parsed.line, "connecting to db...");
}

#[test]
fn parse_returns_none_for_non_conforming() {
    assert!(parse_line("plain text").is_none());
    assert!(parse_line("2026-05-25T10:00:00Z [bad prefix]").is_none());
}

#[test]
fn format_line_exact_text() {
    let line = HandlerLogLine {
        timestamp: "2026-05-25T10:00:01+00:00".to_string(),
        worker_id: 12,
        stream: HandlerStream::Stdout,
        line: "hello".into(),
    };
    assert_eq!(format_line(&line), "2026-05-25T10:00:01+00:00 [handler#12 stdout] hello\n");
}

#[test]
fn parse_normalizes_timestamp_to_utc() {
    let parsed = parse_line("2026-05-25T12:00:00+02:00 [handler#0 stdout] x").expect("parse ok");
    assert_eq!(parsed.timestamp, "2026-05-25T10:00:00+00:00");
    assert_eq!(parsed.line, "x");
}

#[test]
fn parse_rejects_bad_parts() {
    assert!(parse_line("not-a-time [handler#0 stdout] x").is_none());
    assert!(parse_line("2026-05-25T10:00:00Z [handler#x stdout] x").is_none());
    assert!(parse_line("2026-05-25T10:00:00Z [handler#0 stdin] x").is_none());
    assert!(parse_line("2026-05-25T10:00:00Z [handler#-1 stdout] x").is_none());
}

#[test]
fn parse_accepts_plus_sign_and_keeps_inner_text() {
    let parsed = parse_line("2026-05-25T10:00:00Z [handler#+7 stderr] a] b \n\n").expect("parse ok");
    assert_eq!(parsed.worker_id, 7);
    assert_eq!(parsed.stream, HandlerStream::Stderr);
    assert_eq!(parsed.line, "a] b ");
}

#[test]
fn stream_names() {
    assert_eq!(HandlerStream::Stdout.as_str(), "stdout");
    assert_eq!(HandlerStream::Stderr.as_str(), "stderr");
}
