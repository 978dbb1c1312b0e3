use rowforge::stall::{stall_error, StallCheck, StallMonitor, STALL_POLL_INTERVAL_SECS, STALL_TIMEOUT_SECS};

#[test]
fn stall_monitor_fires_on_no_growth() {
    let mut m = StallMonitor::new(0, 100);
    assert_eq!(m.on_tick(0, 0), StallCheck::Waiting);
    assert_eq!(m.on_tick(0, 50), StallCheck::Waiting);
    assert_eq!(m.on_tick(0, 100), StallCheck::Waiting, "exactly the timeout is not yet a stall");
    assert_eq!(m.on_tick(0, 101), StallCheck::Stalled);
}

#[test]
fn stall_monitor_resets_on_growth() {
    let mut m = StallMonitor::new(10, 100);
    assert_eq!(m.on_tick(10, 0), StallCheck::Waiting);
    assert_eq!(m.on_tick(20, 90), StallCheck::Progress);
    assert_eq!(m.stall_since, None);
    assert_eq!(m.on_tick(20, 150), StallCheck::Waiting);
    assert_eq!(m.on_tick(20, 200), StallCheck::Waiting);
    assert_eq!(m.on_tick(20, 251), StallCheck::Stalled);
}

#[test]
fn stall_defaults_and_message() {
    assert_eq!(STALL_POLL_INTERVAL_SECS, 30);
    assert_eq!(STALL_TIMEOUT_SECS, 300);
    assert_eq!(
        stall_error("/x/outcomes.jsonl", 300).message(),
        "store: attempt stalled: outcomes.jsonl (/x/outcomes.jsonl) no growth for 300s"
    );
}
