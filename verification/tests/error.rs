use rowforge::error::CoreError;

#[test]
fn error_texts() {
    assert_eq!(CoreError::StartupTimeout { timeout_ms: 250 }.message(), "handler startup timeout after 250ms");
    assert_eq!(CoreError::HandlerExit { code: Some(-9) }.message(), "handler exited unexpectedly with code Some(-9)");
    assert_eq!(CoreError::HandlerExit { code: Some(i32::MIN) }.message(), "handler exited unexpectedly with code Some(-2147483648)");
    assert_eq!(CoreError::HandlerExit { code: None }.message(), "handler exited unexpectedly with code None");
    assert_eq!(CoreError::Io("disk full".into()).message(), "io: disk full");
    assert_eq!(CoreError::Protocol("p".into()).message(), "protocol: p");
    assert_eq!(CoreError::Sqlite("s".into()).message(), "sqlite: s");
    assert_eq!(CoreError::Store("x".into()).message(), "store: x");
    assert_eq!(
        CoreError::SchemaTooNew { found: 7, max_known: 4 }.message(),
        "schema version 7 is newer than this binary knows about (max 4)"
    );
    assert_eq!(CoreError::Other("plain".into()).message(), "plain");
}
