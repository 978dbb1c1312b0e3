use rowforge::runtime::{
    default_batch_bytes_target, default_max_batch_bytes, Mode, Runtime, DEFAULT_BATCH_BYTES_TARGET,
    DEFAULT_MAX_BATCH_BYTES,
};

/// A runtime block as the manifest reader builds it: absent keys take their defaults.
fn block(mode: Mode, batch_size: Option<u32>, idempotent: Option<bool>, max_batch_bytes: Option<u64>, stateful: bool) -> Runtime {
    Runtime {
        mode,
        batch_size,
        max_batch_bytes: max_batch_bytes.unwrap_or(default_max_batch_bytes()),
        batch_bytes_target: default_batch_bytes_target(),
        idempotent,
        stateful,
    }
}

#[test]
fn row_mode_default_validates() {
    let r = Runtime::default();
    assert_eq!(r.mode, Mode::Row);
    r.validate().unwrap();
}

#[test]
fn batch_mode_requires_batch_size() {
    let r = block(Mode::Batch, None, Some(true), None, false);
    let err = r.validate().unwrap_err();
    assert!(err.contains("batch_size required"), "got: {}", err);
}

#[test]
fn batch_mode_requires_idempotent() {
    let r = block(Mode::Batch, Some(100), None, None, false);
    let err = r.validate().unwrap_err();
    assert!(err.contains("idempotent required"), "got: {}", err);
}

#[test]
fn batch_mode_rejects_zero_size() {
    let r = block(Mode::Batch, Some(0), Some(true), None, false);
    let err = r.validate().unwrap_err();
    assert!(err.contains("must be in"), "got: {}", err);
}

#[test]
fn batch_mode_rejects_oversize() {
    let r = block(Mode::Batch, Some(99999), Some(true), None, false);
    let err = r.validate().unwrap_err();
    assert!(err.contains("must be in"), "got: {}", err);
}

#[test]
fn batch_mode_rejects_byte_cap_below_row_cap() {
    let r = block(Mode::Batch, Some(10), Some(true), Some(1024), false);
    let err = r.validate().unwrap_err();
    assert!(err.contains("max_batch_bytes"), "got: {}", err);
}

#[test]
fn batch_mode_valid_full_block() {
    let r = block(Mode::Batch, Some(100), Some(true), Some(33554432), true);
    r.validate().unwrap();
    assert_eq!(r.mode, Mode::Batch);
    assert_eq!(r.batch_size, Some(100));
    assert_eq!(r.idempotent, Some(true));
    assert!(r.stateful);
}

#[test]
fn batch_mode_defaults_max_bytes_to_16mib() {
    let r = block(Mode::Batch, Some(100), Some(true), None, false);
    r.validate().unwrap();
    assert_eq!(r.max_batch_bytes, 16 * 1024 * 1024);
}

#[test]
fn validation_messages_exact() {
    assert_eq!(
        block(Mode::Batch, Some(0), Some(true), None, false).validate().unwrap_err(),
        "runtime.batch_size must be in 1..=10000, got 0"
    );
    assert_eq!(
        block(Mode::Batch, Some(10), Some(true), Some(0), false).validate().unwrap_err(),
        "runtime.max_batch_bytes must be > 0"
    );
    assert_eq!(
        block(Mode::Batch, Some(10), Some(true), Some(1024), false).validate().unwrap_err(),
        "runtime.max_batch_bytes (1024) must be >= per-row hard cap (4194304)"
    );
    assert_eq!(
        block(Mode::Batch, Some(10), None, Some(0), false).validate().unwrap_err(),
        "runtime.idempotent required when mode=batch (true or false; no default)"
    );
}

#[test]
fn batch_size_bounds_are_inclusive() {
    assert!(block(Mode::Batch, Some(1), Some(false), None, false).validate().is_ok());
    assert!(block(Mode::Batch, Some(10_000), Some(false), None, false).validate().is_ok());
    assert!(block(Mode::Batch, Some(10_001), Some(false), None, false).validate().is_err());
}

#[test]
fn row_mode_ignores_batch_fields() {
    assert!(block(Mode::Row, Some(0), None, Some(0), true).validate().is_ok());
}

#[test]
fn defaults() {
    assert_eq!(default_max_batch_bytes(), DEFAULT_MAX_BATCH_BYTES);
    assert_eq!(default_batch_bytes_target(), DEFAULT_BATCH_BYTES_TARGET);
    assert_eq!(DEFAULT_BATCH_BYTES_TARGET, 4 * 1024 * 1024);
    let r = Runtime::default();
    assert_eq!(r.batch_size, None);
    assert_eq!(r.idempotent, None);
    assert!(!r.stateful);
}
