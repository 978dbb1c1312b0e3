use rowforge::digest::manifest_hash;
use rowforge::meta::build_stats;
use rowforge::outcome::RowOutcome;

#[test]
fn manifest_hash_is_stable() {
    let h1 = manifest_hash(b"name: x\n");
    let h2 = manifest_hash(b"name: x\n");
    assert_eq!(h1, h2);
    assert!(h1.starts_with("sha256:"));
}

#[test]
fn manifest_hash_is_the_sha256_digest() {
    assert_eq!(
        manifest_hash(b"abc"),
        "sha256:ba7816bf8f01cfea414140de5dae2223b00361a396177a9cb410ff61f20015ad"
    );
    assert_eq!(
        manifest_hash(b""),
        "sha256:e3b0c44298fc1c149afbf4c8996fb92427ae41e4649b934ca495991b7852b855"
    );
}

#[test]
fn stats_counts_categories() {
    let out = vec![
        RowOutcome::Success { seq: 0, data: Vec::new(), dur_ms: 100 },
        RowOutcome::Success { seq: 1, data: Vec::new(), dur_ms: 200 },
        RowOutcome::Error { seq: 2, code: "X".into(), message: "m".into(), dur_ms: 50, data: None },
        RowOutcome::Crash { seq: 3, worker_id: 0, crash_at_seq: 3 },
    ];
    let s = build_stats(&out);
    assert_eq!(s.success, 2);
    assert_eq!(s.failed, 2);
    assert_eq!(s.by_error_code.get("X"), 1);
    assert_eq!(s.by_error_code.get("WORKER_CRASH"), 1);
    // (100+200+50)/3 = 116
    assert_eq!(s.avg_dur_ms, 116);
}

#[test]
fn stats_of_nothing_and_of_crashes_only() {
    let s = build_stats(&Vec::new());
    assert_eq!((s.success, s.failed, s.avg_dur_ms), (0, 0, 0));
    let s = build_stats(&vec![RowOutcome::Crash { seq: 0, worker_id: 1, crash_at_seq: 0 }]);
    assert_eq!((s.success, s.failed, s.avg_dur_ms), (0, 1, 0));
    assert_eq!(s.by_error_code.get("WORKER_CRASH"), 1);
}

#[test]
fn stats_mean_of_large_durations_does_not_overflow() {
    let out = vec![
        RowOutcome::Success { seq: 0, data: Vec::new(), dur_ms: u64::MAX },
        RowOutcome::Success { seq: 1, data: Vec::new(), dur_ms: u64::MAX - 1 },
    ];
    assert_eq!(build_stats(&out).avg_dur_ms, u64::MAX - 1);
}
