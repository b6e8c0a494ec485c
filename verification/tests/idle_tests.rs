use renderpool::idle::{max_in_flight, IdleDetector, NetworkIdleKind};

#[test]
fn thresholds_match_policies() {
    assert_eq!(max_in_flight(NetworkIdleKind::Idle0), 0);
    assert_eq!(max_in_flight(NetworkIdleKind::Idle2), 2);
}

/// Idle0 on a stream that starts three operations, finishes all three, then
/// stays silent: idle is declared no earlier than 500ms after the stability
/// window opens and no later than one tick past it.
#[test]
fn idle0_three_starts_then_silence() {
    let mut d = IdleDetector::new(NetworkIdleKind::Idle0);
    d.on_request_started(1);
    d.on_request_started(2);
    d.on_request_started(3);
    assert!(!d.on_tick(100));

    // All three finish shortly after the first tick.
    d.on_request_finished(1);
    d.on_request_finished(2);
    d.on_request_finished(3);

    // The first quiet tick opens the window; the next four are too early.
    assert!(!d.on_tick(200));
    assert!(!d.on_tick(300));
    assert!(!d.on_tick(400));
    assert!(!d.on_tick(500));
    assert!(!d.on_tick(600));
    // 700 - 200 == 500: a full window has elapsed.
    assert!(d.on_tick(700));
}

/// Idle2 tolerates one operation held in flight forever: stability is
/// reached ~500ms after the first tick; Idle0 on the same stream never
/// declares idle.
#[test]
fn one_in_flight_idle2_returns_idle0_does_not() {
    let mut tolerant = IdleDetector::new(NetworkIdleKind::Idle2);
    tolerant.on_request_started(7);
    assert!(!tolerant.on_tick(100));
    assert!(!tolerant.on_tick(200));
    assert!(!tolerant.on_tick(300));
    assert!(!tolerant.on_tick(400));
    assert!(!tolerant.on_tick(500));
    assert!(tolerant.on_tick(600));

    let mut strict = IdleDetector::new(NetworkIdleKind::Idle0);
    strict.on_request_started(7);
    let mut now: u64 = 100;
    while now <= 60_000 {
        assert!(!strict.on_tick(now));
        now += 100;
    }
}

/// A new start while the window is open re-arms detection: the window
/// restarts when quiet returns.
#[test]
fn start_resets_stability_window() {
    let mut d = IdleDetector::new(NetworkIdleKind::Idle0);
    assert!(!d.on_tick(100)); // window opens at 100
    assert!(!d.on_tick(400));
    d.on_request_started(9); // re-arms: window discarded
    d.on_request_finished(9);
    assert!(!d.on_tick(600)); // would have been idle; window reopens at 600
    assert!(!d.on_tick(1000));
    assert!(d.on_tick(1100)); // 1100 - 600 == 500
}

/// Finish events without a matching start, and duplicate finishes, are
/// harmless no-ops: the pending count never goes negative.
#[test]
fn unmatched_and_duplicate_finishes_are_noops() {
    let mut d = IdleDetector::new(NetworkIdleKind::Idle0);
    d.on_request_finished(42); // never started
    d.on_request_started(1);
    d.on_request_finished(1);
    d.on_request_finished(1); // duplicate
    assert!(!d.on_tick(100));
    assert!(d.on_tick(600)); // count is 0, not negative: idle as usual
}

/// Duplicate starts of the same identifier count once.
#[test]
fn duplicate_start_counts_once() {
    let mut d = IdleDetector::new(NetworkIdleKind::Idle0);
    d.on_request_started(5);
    d.on_request_started(5);
    d.on_request_finished(5);
    assert!(!d.on_tick(100));
    assert!(d.on_tick(600));
}
