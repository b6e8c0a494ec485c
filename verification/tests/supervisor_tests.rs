use renderpool::supervisor::{LoopEvent, LoopState, Supervisor};

/// Every process exit triggers a relaunch while no interrupt is pending, and
/// a failed launch puts the loop into backoff until the next attempt.
#[test]
fn exits_trigger_relaunch_and_failures_back_off() {
    let mut sup = Supervisor::new();
    let a = sup.run(true);
    assert_eq!(sup.loop_state(a), LoopState::Running);

    // Process exits; relaunch succeeds at once.
    let must_stop = sup.loop_step(a, LoopEvent::Lapse { relaunch_ok: true });
    assert!(!must_stop);
    assert_eq!(sup.loop_state(a), LoopState::Running);

    // Process exits; relaunch fails: back off.
    sup.loop_step(a, LoopEvent::Lapse { relaunch_ok: false });
    assert_eq!(sup.loop_state(a), LoopState::Starting);

    // Backoff elapses; the next attempt succeeds: the loop converges from
    // launch failure just as from a running process.
    sup.loop_step(a, LoopEvent::Lapse { relaunch_ok: true });
    assert_eq!(sup.loop_state(a), LoopState::Running);
}

/// A loop whose initial launch failed starts in backoff.
#[test]
fn initial_launch_failure_starts_in_backoff() {
    let mut sup = Supervisor::new();
    let a = sup.run(false);
    assert_eq!(sup.loop_state(a), LoopState::Starting);
}

/// The interrupt stops a live process and is terminal.
#[test]
fn interrupt_stops_live_process() {
    let mut sup = Supervisor::new();
    let a = sup.run(true);
    let must_stop = sup.loop_step(a, LoopEvent::Interrupt);
    assert!(must_stop); // the loop held a live process: stop it now
    assert_eq!(sup.loop_state(a), LoopState::Stopped);

    let mut sup2 = Supervisor::new();
    let b = sup2.run(false);
    let must_stop = sup2.loop_step(b, LoopEvent::Interrupt);
    assert!(!must_stop); // nothing was live
    assert_eq!(sup2.loop_state(b), LoopState::Stopped);
}

/// After `stop()` no managed loop reports a live process, and no relaunch
/// ever happens again — even once the backoff interval would have elapsed.
#[test]
fn stop_quiesces_every_loop_for_good() {
    let mut sup = Supervisor::new();
    let a = sup.run(true);
    let b = sup.run(false);
    let c = sup.run(true);
    assert!(!sup.all_stopped());
    sup.stop();
    assert!(sup.all_stopped());
    assert_eq!(sup.loop_state(a), LoopState::Stopped);
    assert_eq!(sup.loop_state(b), LoopState::Stopped);
    assert_eq!(sup.loop_state(c), LoopState::Stopped);

    // Waiting past the backoff changes nothing: exits and elapsed backoffs
    // reaching a stopped loop relaunch nothing.
    sup.loop_step(a, LoopEvent::Lapse { relaunch_ok: true });
    sup.loop_step(b, LoopEvent::Lapse { relaunch_ok: true });
    assert_eq!(sup.loop_state(a), LoopState::Stopped);
    assert_eq!(sup.loop_state(b), LoopState::Stopped);
    assert!(sup.all_stopped());
}

/// A default supervisor manages nothing.
#[test]
fn default_supervisor_is_empty() {
    let sup = Supervisor::default();
    assert!(sup.all_stopped()); // vacuously: no loops at all
}
