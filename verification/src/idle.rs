//! Event-driven detection of when a stream of start/finish/fail events for
//! individually identified in-flight operations has settled.
//!
//! The detector keeps the set of identifiers of operations that have started
//! and not yet finished, together with the timestamp (in milliseconds) at
//! which the count of in-flight operations last dropped to the policy's
//! threshold. A periodic tick declares the system idle once the count has
//! stayed at or below the threshold for a full stability window.

use vstd::prelude::*;

verus! {

/// How long the in-flight count must stay at or below the policy threshold,
/// in milliseconds, before the system counts as idle.
pub const IDLE_WINDOW_MS: u64 = 500;

/// The period, in milliseconds, at which a driver of the detector is expected
/// to call [`IdleDetector::on_tick`].
pub const TICK_PERIOD_MS: u64 = 100;

/// Policy deciding how many operations may still be in flight while the
/// system counts as idle.
#[derive(Debug, Clone, Copy, PartialEq, Eq, Structural)]
pub enum NetworkIdleKind {
    /// Idle only once no operations are in flight for the stability window.
    Idle0,
    /// Idle once at most two operations are in flight for the stability window.
    Idle2,
}

/// The greatest number of in-flight operations the policy tolerates while
/// counting as idle.
pub open spec fn idle_threshold(kind: NetworkIdleKind) -> int {
    match kind {
        NetworkIdleKind::Idle0 => 0,
        NetworkIdleKind::Idle2 => 2,
    }
}

/// Executable form of [`idle_threshold`].
pub fn max_in_flight(kind: NetworkIdleKind) -> (n: usize)
    ensures
        n == idle_threshold(kind),
{
    match kind {
        NetworkIdleKind::Idle0 => 0,
        NetworkIdleKind::Idle2 => 2,
    }
}

/// State of the idle-detection algorithm: the identifiers of operations
/// currently in flight, and the time at which the current sub-threshold
/// stability window began, if one is in progress.
pub struct IdleDetector {
    kind: NetworkIdleKind,
    pending: Vec<u64>,
    idle_since: Option<u64>,
}

impl IdleDetector {
    /// The identifiers of operations that started and have not yet finished.
    pub closed spec fn pending_set(self) -> Set<u64> {
        self.pending@.to_set()
    }

    /// How many operations are in flight.
    pub closed spec fn pending_count(self) -> int {
        self.pending@.len() as int
    }

    /// The policy this detector was created with.
    pub closed spec fn policy(self) -> NetworkIdleKind {
        self.kind
    }

    /// The time at which the current stability window began, if the in-flight
    /// count was at or below the threshold at the last tick.
    pub closed spec fn window_start(self) -> Option<u64> {
        self.idle_since
    }

    /// The detector never records the same identifier twice, so the count of
    /// in-flight operations equals the cardinality of the pending set.
    pub closed spec fn wf(self) -> bool {
        self.pending@.no_duplicates()
    }

    /// A fresh detector: nothing in flight, no stability window in progress.
    pub fn new(kind: NetworkIdleKind) -> (d: Self)
        ensures
            d.wf(),
            d.policy() == kind,
            d.pending_count() == 0,
            d.pending_set() =~= Set::<u64>::empty(),
            d.window_start() is None,
    {
        let d = IdleDetector { kind, pending: Vec::new(), idle_since: None };
        proof {
            assert(d.pending@.to_set() =~= Set::<u64>::empty());
        }
        d
    }

    /// An operation started: record its identifier and re-arm detection by
    /// discarding any stability window in progress. Starting an identifier
    /// already in flight changes nothing but the window.
    pub fn on_request_started(&mut self, id: u64)
        requires
            old(self).wf(),
        ensures
            final(self).wf(),
            final(self).policy() == old(self).policy(),
            final(self).pending_set() =~= old(self).pending_set().insert(id),
            final(self).pending_count() == old(self).pending_count() + (
                if old(self).pending_set().contains(id) {
                    0int
                } else {
                    1int
                }),
            final(self).window_start() is None,
    {
        self.idle_since = None;
        if !contains_id(&self.pending, id) {
            self.pending.push(id);
            proof {
                old(self).pending@.lemma_push_to_set_commute(id);
                assert forall|k: int|
                    0 <= k < old(self).pending@.len() implies old(self).pending@[k] != id by {
                    if old(self).pending@[k] == id {
                        assert(old(self).pending@.contains(id));
                    }
                }
            }
        } else {
            proof {
                assert(old(self).pending@.to_set().contains(id));
                assert(self.pending@.to_set() =~= old(self).pending@.to_set().insert(id));
            }
        }
    }

    /// An operation finished or failed: forget its identifier. An identifier
    /// that is not in flight (a finish without a matching start, or a
    /// duplicate finish) is a harmless no-op; the in-flight count never goes
    /// negative. The stability window is left as it is.
    pub fn on_request_finished(&mut self, id: u64)
        requires
            old(self).wf(),
        ensures
            final(self).wf(),
            final(self).policy() == old(self).policy(),
            final(self).window_start() == old(self).window_start(),
            final(self).pending_set() =~= old(self).pending_set().remove(id),
            final(self).pending_count() == old(self).pending_count() - (
                if old(self).pending_set().contains(id) {
                    1int
                } else {
                    0int
                }),
    {
        match position_of(&self.pending, id) {
            Some(i) => {
                self.pending.remove(i);
                proof {
                    lemma_remove_at(old(self).pending@, i as int);
                    assert(self.pending@.to_set() =~= old(self).pending@.to_set().remove(id));
                }
            },
            None => {
                proof {
                    assert(self.pending@.to_set() =~= old(self).pending@.to_set().remove(id));
                }
            },
        }
    }

    /// Whether a tick at time `now` declares the system idle: the in-flight
    /// count is at or below the threshold and a stability window is in
    /// progress that began a full [`IDLE_WINDOW_MS`] before `now`.
    pub open spec fn tick_declares_idle(self, now: u64) -> bool {
        window_declares_idle(
            self.pending_count(),
            idle_threshold(self.policy()),
            self.window_start(),
            now,
        )
    }

    /// The stability window after a tick at time `now`.
    pub open spec fn tick_next_window(self, now: u64) -> Option<u64> {
        window_next(self.pending_count(), idle_threshold(self.policy()), self.window_start(), now)
    }

    /// A periodic tick at time `now` (milliseconds, non-decreasing across
    /// calls). Returns whether the system is now idle under the policy; the
    /// caller is expected to stop driving the detector once it returns true.
    pub fn on_tick(&mut self, now: u64) -> (idle: bool)
        requires
            old(self).wf(),
        ensures
            final(self).wf(),
            final(self).policy() == old(self).policy(),
            final(self).pending_set() == old(self).pending_set(),
            final(self).pending_count() == old(self).pending_count(),
            idle == old(self).tick_declares_idle(now),
            final(self).window_start() == old(self).tick_next_window(now),
    {
        let threshold = max_in_flight(self.kind);
        if self.pending.len() <= threshold {
            match self.idle_since {
                Some(since) => since <= now && now - since >= IDLE_WINDOW_MS,
                None => {
                    self.idle_since = Some(now);
                    false
                },
            }
        } else {
            self.idle_since = None;
            false
        }
    }
}

/// One tick of the stability-window algorithm over plain values: a tick at
/// time `now` declares idle when the in-flight `count` is at or below the
/// policy `threshold` and the window in progress began a full
/// [`IDLE_WINDOW_MS`] or more before `now`.
pub open spec fn window_declares_idle(
    count: int,
    threshold: int,
    window: Option<u64>,
    now: u64,
) -> bool {
    &&& count <= threshold
    &&& window matches Some(since) && since <= now && now - since >= IDLE_WINDOW_MS
}

/// The stability window after a tick at time `now`: an over-threshold count
/// discards the window, a sub-threshold count opens one at `now` if none is
/// in progress, and otherwise the window is kept as it is.
pub open spec fn window_next(count: int, threshold: int, window: Option<u64>, now: u64) -> Option<
    u64,
> {
    if count > threshold {
        None
    } else if window is None {
        Some(now)
    } else {
        window
    }
}

/// Whether some tick of a run at the given times declares idle, for a stretch
/// during which no operation starts or finishes (so the in-flight count stays
/// at `count`).
pub open spec fn run_declares_idle(
    count: int,
    threshold: int,
    window: Option<u64>,
    times: Seq<u64>,
) -> bool
    decreases times.len(),
{
    if times.len() == 0 {
        false
    } else {
        window_declares_idle(count, threshold, window, times[0]) || run_declares_idle(
            count,
            threshold,
            window_next(count, threshold, window, times[0]),
            times.drop_first(),
        )
    }
}

/// While more operations are in flight than the policy tolerates, no run of
/// ticks ever declares idle, however long it goes on and whatever window was
/// in progress when it began.
pub proof fn lemma_busy_run_never_idle(
    count: int,
    threshold: int,
    window: Option<u64>,
    times: Seq<u64>,
)
    requires
        count > threshold,
    ensures
        !run_declares_idle(count, threshold, window, times),
    decreases times.len(),
{
    if times.len() > 0 {
        lemma_busy_run_never_idle(
            count,
            threshold,
            window_next(count, threshold, window, times[0]),
            times.drop_first(),
        );
    }
}

/// Over a quiet stretch whose window opened at `since`, idle is declared
/// exactly when some tick comes a full stability window or later after
/// `since`: no earlier tick does it, and the window is never re-armed.
pub proof fn lemma_armed_run_idle(count: int, threshold: int, since: u64, times: Seq<u64>)
    requires
        count <= threshold,
        forall|i: int| 0 <= i < times.len() ==> since <= #[trigger] times[i],
    ensures
        run_declares_idle(count, threshold, Some(since), times) <==> exists|i: int|
            0 <= i < times.len() && #[trigger] times[i] - since >= IDLE_WINDOW_MS,
    decreases times.len(),
{
    if times.len() > 0 {
        let rest = times.drop_first();
        lemma_armed_run_idle(count, threshold, since, rest);
        assert(window_next(count, threshold, Some(since), times[0]) == Some(since));
        if window_declares_idle(count, threshold, Some(since), times[0]) {
            assert(times[0] - since >= IDLE_WINDOW_MS);
        }
        if run_declares_idle(count, threshold, Some(since), rest) {
            let i = choose|i: int|
                0 <= i < rest.len() && #[trigger] rest[i] - since >= IDLE_WINDOW_MS;
            assert(times[i + 1] - since >= IDLE_WINDOW_MS);
        }
        if exists|i: int| 0 <= i < times.len() && #[trigger] times[i] - since >= IDLE_WINDOW_MS {
            let i = choose|i: int|
                0 <= i < times.len() && #[trigger] times[i] - since >= IDLE_WINDOW_MS;
            if i > 0 {
                assert(rest[i - 1] - since >= IDLE_WINDOW_MS);
            }
        }
    }
}

/// Starting quiet with no window in progress, a run of ticks declares idle
/// exactly when some tick after the first comes a full stability window or
/// later after the first tick: never earlier, and never at the first tick
/// itself.
pub proof fn lemma_quiet_run_idle_exactly(count: int, threshold: int, times: Seq<u64>)
    requires
        count <= threshold,
        times.len() > 0,
        forall|i: int, j: int| 0 <= i <= j < times.len() ==> times[i] <= times[j],
    ensures
        run_declares_idle(count, threshold, None, times) <==> exists|i: int|
            0 < i < times.len() && #[trigger] times[i] - times[0] >= IDLE_WINDOW_MS,
{
    let t0 = times[0];
    let rest = times.drop_first();
    assert(!window_declares_idle(count, threshold, None, t0));
    assert(window_next(count, threshold, None, t0) == Some(t0));
    assert forall|i: int| 0 <= i < rest.len() implies t0 <= #[trigger] rest[i] by {
        assert(rest[i] == times[i + 1]);
        assert(times[0] <= times[i + 1]);
    }
    lemma_armed_run_idle(count, threshold, t0, rest);
    if exists|i: int| 0 <= i < rest.len() && #[trigger] rest[i] - t0 >= IDLE_WINDOW_MS {
        let i = choose|i: int| 0 <= i < rest.len() && #[trigger] rest[i] - t0 >= IDLE_WINDOW_MS;
        assert(times[i + 1] - times[0] >= IDLE_WINDOW_MS);
    }
    if exists|i: int| 0 < i < times.len() && #[trigger] times[i] - times[0] >= IDLE_WINDOW_MS {
        let i = choose|i: int|
            0 < i < times.len() && #[trigger] times[i] - times[0] >= IDLE_WINDOW_MS;
        assert(rest[i - 1] - t0 >= IDLE_WINDOW_MS);
    }
}

/// Whether `v` holds `id`.
fn contains_id(v: &Vec<u64>, id: u64) -> (b: bool)
    ensures
        b == v@.contains(id),
{
    let mut i: usize = 0;
    while i < v.len()
        invariant
            i <= v.len(),
            forall|j: int| 0 <= j < i ==> v@[j] != id,
        decreases v.len() - i,
    {
        if v[i] == id {
            return true;
        }
        i = i + 1;
    }
    false
}

/// The index of `id` in `v`, if it is there.
fn position_of(v: &Vec<u64>, id: u64) -> (r: Option<usize>)
    ensures
        match r {
            Some(i) => i < v@.len() && v@[i as int] == id,
            None => !v@.contains(id),
        },
{
    let mut i: usize = 0;
    while i < v.len()
        invariant
            i <= v.len(),
            forall|j: int| 0 <= j < i ==> v@[j] != id,
        decreases v.len() - i,
    {
        if v[i] == id {
            return Some(i);
        }
        i = i + 1;
    }
    None
}

/// Removing the element at index `i` of a duplicate-free sequence keeps the
/// sequence duplicate-free and removes exactly that element from the set of
/// elements.
proof fn lemma_remove_at(s: Seq<u64>, i: int)
    requires
        s.no_duplicates(),
        0 <= i < s.len(),
    ensures
        s.remove(i).no_duplicates(),
        forall|x: u64| #[trigger] s.remove(i).contains(x) <==> s.contains(x) && x != s[i],
{
    let r = s.remove(i);
    assert forall|x: u64| #[trigger] r.contains(x) implies s.contains(x) && x != s[i] by {
        let k = choose|k: int| 0 <= k < r.len() && r[k] == x;
        if k < i {
            assert(s[k] == x);
        } else {
            assert(s[k + 1] == x);
        }
    }
    assert forall|x: u64| s.contains(x) && x != s[i] implies r.contains(x) by {
        let k = choose|k: int| 0 <= k < s.len() && s[k] == x;
        if k < i {
            assert(r[k] == x);
        } else {
            assert(r[k - 1] == x);
        }
    }
}

} // verus!
