//! The bounded-concurrency worker pool: a fixed capacity of admission
//! permits, an unbounded FIFO dispatch queue shared by a fixed set of
//! workers, and result delivery back to exactly the submitting caller.
//!
//! A submission's life is: it waits for a permit (or times out with no side
//! effect); once admitted it holds a permit and sits in the queue; a free
//! worker pulls the queue's head and executes it — unless its caller already
//! gave up, in which case the packet is discarded unexecuted; the worker
//! records the result at the submission's own slot and only then releases the
//! permit. Holding the permit from admission to delivery bounds the total
//! in-flight work — queued plus executing — to the capacity, independent of
//! the worker count.
//!
//! [`WorkerPool`] is the coordination state of that protocol, with one method
//! per transition; the suspension points between the transitions (awaiting a
//! permit, a queue element, a result) belong to the driver. The pool's
//! abstract state is a [`PoolModel`]; every method's contract pins down the
//! model change exactly, and each change is one step of the transition
//! relation [`pool_step`], over which the pool's laws are stated.

use vstd::prelude::*;

verus! {

/// Where one submission stands in its life.
#[derive(Debug, Clone, Copy, PartialEq, Eq, Structural)]
pub enum SubmissionPhase {
    /// Suspended until a permit is available.
    Waiting,
    /// Admitted: a permit is held and the packet sits in the dispatch queue.
    /// `caller_waiting` records whether the submitting caller still awaits
    /// the result.
    Queued { caller_waiting: bool },
    /// Pulled from the queue by the given worker, which is executing it.
    Executing { worker: usize },
    /// Terminal: the result was delivered to this submission's own caller and
    /// the permit released.
    Completed { ok: bool },
    /// Terminal: the deadline elapsed before a permit was acquired. The task
    /// was never queued and never runs.
    TimedOut,
    /// Terminal: the caller gave up before dispatch, so the packet was
    /// dropped without execution and the permit released.
    Discarded,
}

/// Whether a submission in this phase holds one of the pool's permits.
pub open spec fn holds_permit(p: SubmissionPhase) -> bool {
    p is Queued || p is Executing
}

/// Whether this phase is terminal: nothing moves a submission out of it.
pub open spec fn is_settled(p: SubmissionPhase) -> bool {
    p is Completed || p is TimedOut || p is Discarded
}

/// One for a permit-holding phase, zero otherwise.
pub open spec fn permit_count(p: SubmissionPhase) -> int {
    if holds_permit(p) {
        1
    } else {
        0
    }
}

/// How many submissions are admitted and uncompleted — queued or executing,
/// each holding a permit.
pub open spec fn admitted_live(s: Seq<SubmissionPhase>) -> int
    decreases s.len(),
{
    if s.len() == 0 {
        0
    } else {
        admitted_live(s.drop_last()) + permit_count(s.last())
    }
}

/// The abstract state of a pool: its capacity, the permits not currently
/// held, the dispatch queue of submission indices in admission order, the
/// phase of every submission ever made, and what each worker is executing.
pub struct PoolModel {
    pub cap: int,
    pub permits_free: int,
    pub queue: Seq<usize>,
    pub subs: Seq<SubmissionPhase>,
    pub worker_tasks: Seq<Option<usize>>,
}

impl PoolModel {
    /// The pool's invariant. Permits are conserved: free permits plus held
    /// permits equal the capacity. The queue holds exactly the queued
    /// submissions, each once. A worker executes at most one submission, a
    /// submission is executed by at most one worker, and the two records
    /// agree.
    pub open spec fn wf(self) -> bool {
        &&& self.permits_free >= 0
        &&& self.subs.len() <= usize::MAX
        &&& self.permits_free + admitted_live(self.subs) == self.cap
        &&& forall|i: int|
            0 <= i < self.queue.len() ==> self.queue[i] < self.subs.len() && (
            #[trigger] self.subs[self.queue[i] as int]) is Queued
        &&& self.queue.no_duplicates()
        &&& forall|s: int|
            0 <= s < self.subs.len() && (#[trigger] self.subs[s]) is Queued
                ==> self.queue.contains(s as usize)
        &&& forall|w: int|
            0 <= w < self.worker_tasks.len() ==> match #[trigger] self.worker_tasks[w] {
                Some(s) => {
                    &&& s < self.subs.len()
                    &&& self.subs[s as int] matches SubmissionPhase::Executing { worker }
                        && worker == w
                },
                None => true,
            }
        &&& forall|s: int|
            0 <= s < self.subs.len() ==> ((#[trigger] self.subs[s]) matches
            SubmissionPhase::Executing { worker } ==> worker < self.worker_tasks.len()
                && self.worker_tasks[worker as int] == Some(s as usize))
    }
}

/// A caller arrived: a new submission, not yet admitted.
pub open spec fn step_submit(a: PoolModel, b: PoolModel) -> bool {
    &&& a.subs.len() < usize::MAX
    &&& b == (PoolModel { subs: a.subs.push(SubmissionPhase::Waiting), ..a })
}

/// Submission `sid` acquired a permit and its packet joined the queue's tail.
pub open spec fn step_admit_at(a: PoolModel, b: PoolModel, sid: usize) -> bool {
    &&& sid < a.subs.len()
    &&& a.subs[sid as int] is Waiting
    &&& a.permits_free > 0
    &&& b == (PoolModel {
        permits_free: a.permits_free - 1,
        queue: a.queue.push(sid),
        subs: a.subs.update(sid as int, SubmissionPhase::Queued { caller_waiting: true }),
        ..a
    })
}

/// Some submission was admitted.
pub open spec fn step_admit(a: PoolModel, b: PoolModel) -> bool {
    exists|sid: usize| step_admit_at(a, b, sid)
}

/// Submission `sid`'s deadline elapsed before a permit was acquired: it
/// settles as timed out, and nothing else — no permit, no queue entry, no
/// worker — changes.
pub open spec fn step_timeout_at(a: PoolModel, b: PoolModel, sid: usize) -> bool {
    &&& sid < a.subs.len()
    &&& a.subs[sid as int] is Waiting
    &&& b == (PoolModel { subs: a.subs.update(sid as int, SubmissionPhase::TimedOut), ..a })
}

/// Some waiting submission timed out.
pub open spec fn step_timeout(a: PoolModel, b: PoolModel) -> bool {
    exists|sid: usize| step_timeout_at(a, b, sid)
}

/// Queued submission `sid`'s caller gave up awaiting the result before
/// dispatch. The packet stays queued — the permit is only released when a
/// worker pulls and discards it.
pub open spec fn step_abandon_at(a: PoolModel, b: PoolModel, sid: usize) -> bool {
    &&& sid < a.subs.len()
    &&& a.subs[sid as int] == SubmissionPhase::Queued { caller_waiting: true }
    &&& b == (PoolModel {
        subs: a.subs.update(sid as int, SubmissionPhase::Queued { caller_waiting: false }),
        ..a
    })
}

/// Some queued submission's caller gave up.
pub open spec fn step_abandon(a: PoolModel, b: PoolModel) -> bool {
    exists|sid: usize| step_abandon_at(a, b, sid)
}

/// A free worker `w` pulled the queue's head, whose caller still waits, and
/// began executing it. The permit stays held.
pub open spec fn step_dispatch_at(a: PoolModel, b: PoolModel, w: usize) -> bool {
    &&& a.queue.len() > 0
    &&& a.queue[0] < a.subs.len()
    &&& a.subs[a.queue[0] as int] == SubmissionPhase::Queued { caller_waiting: true }
    &&& w < a.worker_tasks.len()
    &&& a.worker_tasks[w as int] is None
    &&& b == (PoolModel {
        queue: a.queue.drop_first(),
        subs: a.subs.update(a.queue[0] as int, SubmissionPhase::Executing { worker: w }),
        worker_tasks: a.worker_tasks.update(w as int, Some(a.queue[0])),
        ..a
    })
}

/// Some free worker dispatched the queue's head.
pub open spec fn step_dispatch(a: PoolModel, b: PoolModel) -> bool {
    exists|w: usize| step_dispatch_at(a, b, w)
}

/// A worker pulled the queue's head, found its caller gone, and dropped the
/// packet without executing it, releasing the permit.
pub open spec fn step_discard(a: PoolModel, b: PoolModel) -> bool {
    &&& a.queue.len() > 0
    &&& a.queue[0] < a.subs.len()
    &&& a.subs[a.queue[0] as int] == SubmissionPhase::Queued { caller_waiting: false }
    &&& b == (PoolModel {
        permits_free: a.permits_free + 1,
        queue: a.queue.drop_first(),
        subs: a.subs.update(a.queue[0] as int, SubmissionPhase::Discarded),
        ..a
    })
}

/// Worker `w` finished the submission it was executing: the result is
/// recorded at that submission's own slot — delivered to its own caller and
/// nobody else — and only then is the permit released.
pub open spec fn step_finish_at(a: PoolModel, b: PoolModel, w: usize, ok: bool) -> bool {
    &&& w < a.worker_tasks.len()
    &&& a.worker_tasks[w as int] matches Some(sid) && sid < a.subs.len() && b == (PoolModel {
        permits_free: a.permits_free + 1,
        subs: a.subs.update(sid as int, SubmissionPhase::Completed { ok }),
        worker_tasks: a.worker_tasks.update(w as int, None),
        ..a
    })
}

/// Some worker delivered a result.
pub open spec fn step_finish(a: PoolModel, b: PoolModel) -> bool {
    exists|w: usize, ok: bool| step_finish_at(a, b, w, ok)
}

/// The pool's transition relation: everything that can happen to a pool,
/// including nothing.
pub open spec fn pool_step(a: PoolModel, b: PoolModel) -> bool {
    ||| step_submit(a, b)
    ||| step_admit(a, b)
    ||| step_timeout(a, b)
    ||| step_abandon(a, b)
    ||| step_dispatch(a, b)
    ||| step_discard(a, b)
    ||| step_finish(a, b)
    ||| b == a
}

/// The coordination state of one worker pool. See the module documentation.
pub struct WorkerPool {
    cap: usize,
    permits_free: usize,
    queue: Vec<usize>,
    subs: Vec<SubmissionPhase>,
    worker_tasks: Vec<Option<usize>>,
}

impl WorkerPool {
    /// The pool's abstract state.
    pub closed spec fn model(self) -> PoolModel {
        PoolModel {
            cap: self.cap as int,
            permits_free: self.permits_free as int,
            queue: self.queue@,
            subs: self.subs@,
            worker_tasks: self.worker_tasks@,
        }
    }

    /// A pool with `cap` admission permits and `workers` idle workers, with
    /// no submissions yet.
    pub fn new(cap: usize, workers: usize) -> (p: Self)
        ensures
            p.model().wf(),
            p.model().cap == cap,
            p.model().permits_free == cap,
            p.model().queue =~= Seq::<usize>::empty(),
            p.model().subs =~= Seq::<SubmissionPhase>::empty(),
            p.model().worker_tasks.len() == workers,
            forall|w: int| 0 <= w < workers ==> p.model().worker_tasks[w] is None,
    {
        let mut worker_tasks: Vec<Option<usize>> = Vec::new();
        let mut w: usize = 0;
        while w < workers
            invariant
                w <= workers,
                worker_tasks@.len() == w,
                forall|j: int| 0 <= j < w ==> worker_tasks@[j] is None,
            decreases workers - w,
        {
            worker_tasks.push(None);
            w = w + 1;
        }
        WorkerPool { cap, permits_free: cap, queue: Vec::new(), subs: Vec::new(), worker_tasks }
    }

    /// A caller arrives with a task: register its submission, not yet
    /// admitted. Returns the submission's index.
    pub fn submit(&mut self) -> (sid: usize)
        requires
            old(self).model().wf(),
        ensures
            final(self).model().wf(),
            sid == old(self).model().subs.len(),
            final(self).model() == (PoolModel {
                subs: old(self).model().subs.push(SubmissionPhase::Waiting),
                ..old(self).model()
            }),
            pool_step(old(self).model(), final(self).model()),
    {
        let sid = self.subs.len();
        self.subs.push(SubmissionPhase::Waiting);
        proof {
            assert(self.subs.len() <= usize::MAX);
            assert(step_submit(old(self).model(), self.model()));
            wf_after_submit(old(self).model(), self.model());
        }
        sid
    }

    /// Try to admit waiting submission `sid`: if a permit is free, it is
    /// taken and the packet joins the queue's tail; with the capacity
    /// exhausted nothing changes and the caller keeps waiting.
    pub fn try_admit(&mut self, sid: usize) -> (admitted: bool)
        requires
            old(self).model().wf(),
            sid < old(self).model().subs.len(),
            old(self).model().subs[sid as int] is Waiting,
        ensures
            final(self).model().wf(),
            admitted == (old(self).model().permits_free > 0),
            admitted ==> step_admit_at(old(self).model(), final(self).model(), sid),
            !admitted ==> final(self).model() == old(self).model(),
            pool_step(old(self).model(), final(self).model()),
    {
        proof {
            assert(sid < self.subs@.len());
        }
        if self.permits_free > 0 {
            self.permits_free = self.permits_free - 1;
            self.queue.push(sid);
            self.subs[sid] = SubmissionPhase::Queued { caller_waiting: true };
            proof {
                let a = old(self).model();
                let b = self.model();
                assert(step_admit_at(a, b, sid));
                wf_after_admit(a, b, sid);
            }
            true
        } else {
            false
        }
    }

    /// Waiting submission `sid`'s deadline elapsed before a permit was
    /// acquired: it settles as timed out. No side effect occurred — the
    /// queue, the permits and the workers are exactly as they were, and the
    /// task is never dispatched (a settled submission never changes again,
    /// see [`lemma_settled_stays`]).
    pub fn admission_timeout(&mut self, sid: usize)
        requires
            old(self).model().wf(),
            sid < old(self).model().subs.len(),
            old(self).model().subs[sid as int] is Waiting,
        ensures
            final(self).model().wf(),
            step_timeout_at(old(self).model(), final(self).model(), sid),
            pool_step(old(self).model(), final(self).model()),
    {
        proof {
            assert(sid < self.subs@.len());
        }
        self.subs[sid] = SubmissionPhase::TimedOut;
        proof {
            let a = old(self).model();
            let b = self.model();
            assert(step_timeout_at(a, b, sid));
            wf_after_phase_only(a, b, sid, SubmissionPhase::TimedOut);
        }
    }

    /// Queued submission `sid`'s caller gave up awaiting the result before a
    /// worker pulled the packet. The packet stays queued; the worker that
    /// eventually pulls it will discard it unexecuted.
    pub fn abandon(&mut self, sid: usize)
        requires
            old(self).model().wf(),
            sid < old(self).model().subs.len(),
            old(self).model().subs[sid as int] == (SubmissionPhase::Queued {
                caller_waiting: true,
            }),
        ensures
            final(self).model().wf(),
            step_abandon_at(old(self).model(), final(self).model(), sid),
            pool_step(old(self).model(), final(self).model()),
    {
        proof {
            assert(sid < self.subs@.len());
        }
        self.subs[sid] = SubmissionPhase::Queued { caller_waiting: false };
        proof {
            let a = old(self).model();
            let b = self.model();
            assert(step_abandon_at(a, b, sid));
            wf_after_phase_only(a, b, sid, SubmissionPhase::Queued { caller_waiting: false });
        }
    }

    /// Free worker `w` pulls the queue's head — the earliest admitted packet
    /// still queued, so with a single worker execution order is submission
    /// order — and begins executing it. Requires the head's caller to still
    /// be waiting; see [`WorkerPool::discard_head`] for the other case.
    pub fn dispatch(&mut self, w: usize) -> (sid: usize)
        requires
            old(self).model().wf(),
            w < old(self).model().worker_tasks.len(),
            old(self).model().worker_tasks[w as int] is None,
            old(self).model().queue.len() > 0,
            old(self).model().subs[old(self).model().queue[0] as int] == (
            SubmissionPhase::Queued { caller_waiting: true }),
        ensures
            final(self).model().wf(),
            sid == old(self).model().queue[0],
            step_dispatch_at(old(self).model(), final(self).model(), w),
            pool_step(old(self).model(), final(self).model()),
    {
        let sid = self.queue.remove(0);
        proof {
            assert(old(self).model().queue[0] < old(self).model().subs.len());
        }
        self.subs[sid] = SubmissionPhase::Executing { worker: w };
        self.worker_tasks[w] = Some(sid);
        proof {
            let a = old(self).model();
            let b = self.model();
            assert(a.queue.remove(0) =~= a.queue.drop_first());
            assert(step_dispatch_at(a, b, w));
            wf_after_dispatch(a, b, w);
        }
        sid
    }

    /// A worker pulls the queue's head, finds its caller gone, and drops the
    /// packet without executing it; the permit is released at once.
    pub fn discard_head(&mut self)
        requires
            old(self).model().wf(),
            old(self).model().queue.len() > 0,
            old(self).model().subs[old(self).model().queue[0] as int] == (
            SubmissionPhase::Queued { caller_waiting: false }),
        ensures
            final(self).model().wf(),
            step_discard(old(self).model(), final(self).model()),
            pool_step(old(self).model(), final(self).model()),
    {
        let sid = self.queue.remove(0);
        proof {
            assert(old(self).model().queue[0] < old(self).model().subs.len());
            assert(holds_permit(old(self).model().subs[sid as int]));
            lemma_live_update(old(self).model().subs, sid as int, SubmissionPhase::Discarded);
            lemma_live_nonneg(old(self).model().subs.update(sid as int, SubmissionPhase::Discarded));
            assert(self.permits_free < self.cap);
        }
        self.subs[sid] = SubmissionPhase::Discarded;
        self.permits_free = self.permits_free + 1;
        proof {
            let a = old(self).model();
            let b = self.model();
            assert(a.queue.remove(0) =~= a.queue.drop_first());
            assert(step_discard(a, b));
            wf_after_discard(a, b);
        }
    }

    /// Worker `w` finished the submission it was executing: the result —
    /// success or failure, a failing task never affects any other submission
    /// — is recorded at that submission's own slot, and only then is the
    /// permit released and the worker freed for the next packet.
    pub fn finish(&mut self, w: usize, ok: bool) -> (sid: usize)
        requires
            old(self).model().wf(),
            w < old(self).model().worker_tasks.len(),
            old(self).model().worker_tasks[w as int] is Some,
        ensures
            final(self).model().wf(),
            Some(sid) == old(self).model().worker_tasks[w as int],
            final(self).model().subs[sid as int] == (SubmissionPhase::Completed { ok }),
            step_finish_at(old(self).model(), final(self).model(), w, ok),
            pool_step(old(self).model(), final(self).model()),
    {
        let sid = match self.worker_tasks[w] {
            Some(s) => s,
            None => 0,
        };
        proof {
            assert(old(self).model().subs[sid as int] matches SubmissionPhase::Executing {
                worker,
            } && worker == w);
            assert(holds_permit(old(self).model().subs[sid as int]));
            lemma_live_update(
                old(self).model().subs,
                sid as int,
                SubmissionPhase::Completed { ok },
            );
            lemma_live_nonneg(
                old(self).model().subs.update(sid as int, SubmissionPhase::Completed { ok }),
            );
            assert(self.permits_free < self.cap);
        }
        self.subs[sid] = SubmissionPhase::Completed { ok };
        self.worker_tasks[w] = None;
        self.permits_free = self.permits_free + 1;
        proof {
            let a = old(self).model();
            let b = self.model();
            assert(step_finish_at(a, b, w, ok));
            wf_after_finish(a, b, w, ok);
        }
        sid
    }

    /// The capacity the pool was created with.
    pub fn capacity(&self) -> (c: usize)
        ensures
            c == self.model().cap,
    {
        self.cap
    }

    /// How many permits are free right now.
    pub fn permits_available(&self) -> (n: usize)
        ensures
            n == self.model().permits_free,
    {
        self.permits_free
    }

    /// How many packets sit in the dispatch queue.
    pub fn queued_len(&self) -> (n: usize)
        ensures
            n == self.model().queue.len(),
    {
        self.queue.len()
    }

    /// How many submissions were ever made.
    pub fn submissions(&self) -> (n: usize)
        ensures
            n == self.model().subs.len(),
    {
        self.subs.len()
    }

    /// The phase submission `sid` is in.
    pub fn phase(&self, sid: usize) -> (p: SubmissionPhase)
        requires
            sid < self.model().subs.len(),
        ensures
            p == self.model().subs[sid as int],
    {
        self.subs[sid]
    }

    /// The queue's head, if any packet is queued.
    pub fn head(&self) -> (r: Option<usize>)
        ensures
            match r {
                Some(sid) => self.model().queue.len() > 0 && sid == self.model().queue[0],
                None => self.model().queue.len() == 0,
            },
    {
        if self.queue.len() > 0 {
            Some(self.queue[0])
        } else {
            None
        }
    }

    /// What worker `w` is executing, if anything.
    pub fn worker_task(&self, w: usize) -> (r: Option<usize>)
        requires
            w < self.model().worker_tasks.len(),
        ensures
            r == self.model().worker_tasks[w as int],
    {
        self.worker_tasks[w]
    }
}

proof fn wf_after_submit(a: PoolModel, b: PoolModel)
    requires
        a.wf(),
        step_submit(a, b),
    ensures
        b.wf(),
{
    lemma_live_push(a.subs, SubmissionPhase::Waiting);
    assert forall|i: int|
        0 <= i < b.queue.len() implies b.queue[i] < b.subs.len() && (
    #[trigger] b.subs[b.queue[i] as int]) is Queued by {
        assert(a.subs[a.queue[i] as int] is Queued);
    }
    assert forall|s: int|
        0 <= s < b.subs.len() && (#[trigger] b.subs[s]) is Queued implies b.queue.contains(
        s as usize,
    ) by {
        assert(a.subs[s] is Queued);
    }
    assert forall|w: int|
        0 <= w < b.worker_tasks.len() implies match #[trigger] b.worker_tasks[w] {
        Some(s) => {
            &&& s < b.subs.len()
            &&& b.subs[s as int] matches SubmissionPhase::Executing { worker } && worker == w
        },
        None => true,
    } by {
        match a.worker_tasks[w] {
            Some(s) => {
                assert(a.subs[s as int] is Executing);
            },
            None => {},
        }
    }
}

proof fn wf_after_admit(a: PoolModel, b: PoolModel, sid: usize)
    requires
        a.wf(),
        step_admit_at(a, b, sid),
    ensures
        b.wf(),
{
    lemma_live_update(a.subs, sid as int, SubmissionPhase::Queued { caller_waiting: true });
    assert forall|i: int|
        0 <= i < b.queue.len() implies b.queue[i] < b.subs.len() && (
    #[trigger] b.subs[b.queue[i] as int]) is Queued by {
        if i < a.queue.len() {
            assert(a.subs[a.queue[i] as int] is Queued);
        }
    }
    assert(!a.queue.contains(sid));
    assert forall|s: int|
        0 <= s < b.subs.len() && (#[trigger] b.subs[s]) is Queued implies b.queue.contains(
        s as usize,
    ) by {
        if s == sid {
            assert(b.queue[b.queue.len() - 1] == sid);
        } else {
            assert(a.subs[s] is Queued);
            let k = choose|k: int| 0 <= k < a.queue.len() && a.queue[k] == s as usize;
            assert(b.queue[k] == s as usize);
        }
    }
    assert forall|w: int|
        0 <= w < b.worker_tasks.len() implies match #[trigger] b.worker_tasks[w] {
        Some(s) => {
            &&& s < b.subs.len()
            &&& b.subs[s as int] matches SubmissionPhase::Executing { worker } && worker == w
        },
        None => true,
    } by {
        match a.worker_tasks[w] {
            Some(s) => {
                assert(a.subs[s as int] is Executing);
            },
            None => {},
        }
    }
}

proof fn wf_after_phase_only(a: PoolModel, b: PoolModel, sid: usize, p: SubmissionPhase)
    requires
        a.wf(),
        sid < a.subs.len(),
        holds_permit(a.subs[sid as int]) == holds_permit(p),
        (a.subs[sid as int] is Queued) == (p is Queued),
        !(a.subs[sid as int] is Executing),
        !(p is Executing),
        b == (PoolModel { subs: a.subs.update(sid as int, p), ..a }),
    ensures
        b.wf(),
{
    lemma_live_update(a.subs, sid as int, p);
    assert forall|i: int|
        0 <= i < b.queue.len() implies b.queue[i] < b.subs.len() && (
    #[trigger] b.subs[b.queue[i] as int]) is Queued by {
        assert(a.subs[a.queue[i] as int] is Queued);
    }
    assert forall|s: int|
        0 <= s < b.subs.len() && (#[trigger] b.subs[s]) is Queued implies b.queue.contains(
        s as usize,
    ) by {
        assert(a.subs[s] is Queued);
    }
    assert forall|w: int|
        0 <= w < b.worker_tasks.len() implies match #[trigger] b.worker_tasks[w] {
        Some(s) => {
            &&& s < b.subs.len()
            &&& b.subs[s as int] matches SubmissionPhase::Executing { worker } && worker == w
        },
        None => true,
    } by {
        match a.worker_tasks[w] {
            Some(s) => {
                assert(a.subs[s as int] is Executing);
            },
            None => {},
        }
    }
}

proof fn wf_after_dispatch(a: PoolModel, b: PoolModel, w: usize)
    requires
        a.wf(),
        step_dispatch_at(a, b, w),
    ensures
        b.wf(),
{
    let sid = a.queue[0];
    lemma_live_update(a.subs, sid as int, SubmissionPhase::Executing { worker: w });
    assert forall|i: int|
        0 <= i < b.queue.len() implies b.queue[i] < b.subs.len() && (
    #[trigger] b.subs[b.queue[i] as int]) is Queued by {
        assert(b.queue[i] == a.queue[i + 1]);
        assert(a.subs[a.queue[i + 1] as int] is Queued);
        assert(a.queue[i + 1] != sid);
    }
    assert forall|i: int, j: int|
        0 <= i < b.queue.len() && 0 <= j < b.queue.len() && i != j implies b.queue[i] != b.queue[j]
    by {
        assert(b.queue[i] == a.queue[i + 1]);
        assert(b.queue[j] == a.queue[j + 1]);
    }
    assert forall|s: int|
        0 <= s < b.subs.len() && (#[trigger] b.subs[s]) is Queued implies b.queue.contains(
        s as usize,
    ) by {
        assert(a.subs[s] is Queued);
        let k = choose|k: int| 0 <= k < a.queue.len() && a.queue[k] == s as usize;
        assert(k != 0);
        assert(b.queue[k - 1] == s as usize);
    }
    assert forall|w2: int|
        0 <= w2 < b.worker_tasks.len() implies match #[trigger] b.worker_tasks[w2] {
        Some(s) => {
            &&& s < b.subs.len()
            &&& b.subs[s as int] matches SubmissionPhase::Executing { worker } && worker == w2
        },
        None => true,
    } by {
        if w2 != w {
            match a.worker_tasks[w2] {
                Some(s) => {
                    assert(a.subs[s as int] matches SubmissionPhase::Executing { worker }
                        && worker == w2);
                    assert(s != sid);
                },
                None => {},
            }
        }
    }
    assert forall|s: int|
        0 <= s < b.subs.len() implies ((#[trigger] b.subs[s]) matches SubmissionPhase::Executing {
        worker
    } ==> worker < b.worker_tasks.len() && b.worker_tasks[worker as int] == Some(s as usize)) by {
        if s != sid {
            match a.subs[s] {
                SubmissionPhase::Executing { worker } => {
                    assert(a.worker_tasks[worker as int] == Some(s as usize));
                    assert(worker != w);
                },
                _ => {},
            }
        }
    }
}

proof fn wf_after_discard(a: PoolModel, b: PoolModel)
    requires
        a.wf(),
        step_discard(a, b),
    ensures
        b.wf(),
{
    let sid = a.queue[0];
    lemma_live_update(a.subs, sid as int, SubmissionPhase::Discarded);
    assert forall|i: int|
        0 <= i < b.queue.len() implies b.queue[i] < b.subs.len() && (
    #[trigger] b.subs[b.queue[i] as int]) is Queued by {
        assert(b.queue[i] == a.queue[i + 1]);
        assert(a.subs[a.queue[i + 1] as int] is Queued);
        assert(a.queue[i + 1] != sid);
    }
    assert forall|i: int, j: int|
        0 <= i < b.queue.len() && 0 <= j < b.queue.len() && i != j implies b.queue[i] != b.queue[j]
    by {
        assert(b.queue[i] == a.queue[i + 1]);
        assert(b.queue[j] == a.queue[j + 1]);
    }
    assert forall|s: int|
        0 <= s < b.subs.len() && (#[trigger] b.subs[s]) is Queued implies b.queue.contains(
        s as usize,
    ) by {
        assert(a.subs[s] is Queued);
        let k = choose|k: int| 0 <= k < a.queue.len() && a.queue[k] == s as usize;
        assert(k != 0);
        assert(b.queue[k - 1] == s as usize);
    }
    assert forall|w2: int|
        0 <= w2 < b.worker_tasks.len() implies match #[trigger] b.worker_tasks[w2] {
        Some(s) => {
            &&& s < b.subs.len()
            &&& b.subs[s as int] matches SubmissionPhase::Executing { worker } && worker == w2
        },
        None => true,
    } by {
        match a.worker_tasks[w2] {
            Some(s) => {
                assert(a.subs[s as int] is Executing);
                assert(s != sid);
            },
            None => {},
        }
    }
}

proof fn wf_after_finish(a: PoolModel, b: PoolModel, w: usize, ok: bool)
    requires
        a.wf(),
        step_finish_at(a, b, w, ok),
    ensures
        b.wf(),
{
    match a.worker_tasks[w as int] {
        Some(sid) => {
            assert(a.subs[sid as int] matches SubmissionPhase::Executing { worker }
                && worker == w);
            lemma_live_update(a.subs, sid as int, SubmissionPhase::Completed { ok });
            assert forall|i: int|
                0 <= i < b.queue.len() implies b.queue[i] < b.subs.len() && (
            #[trigger] b.subs[b.queue[i] as int]) is Queued by {
                assert(a.subs[a.queue[i] as int] is Queued);
                assert(a.queue[i] != sid);
            }
            assert forall|s: int|
                0 <= s < b.subs.len() && (#[trigger] b.subs[s]) is Queued implies b.queue.contains(
                s as usize,
            ) by {
                assert(a.subs[s] is Queued);
            }
            assert forall|w2: int|
                0 <= w2 < b.worker_tasks.len() implies match #[trigger] b.worker_tasks[w2] {
                Some(s) => {
                    &&& s < b.subs.len()
                    &&& b.subs[s as int] matches SubmissionPhase::Executing { worker }
                        && worker == w2
                },
                None => true,
            } by {
                if w2 != w {
                    match a.worker_tasks[w2] {
                        Some(s) => {
                            assert(a.subs[s as int] matches SubmissionPhase::Executing {
                                worker,
                            } && worker == w2);
                            assert(s != sid);
                        },
                        None => {},
                    }
                }
            }
            assert forall|s: int|
                0 <= s < b.subs.len() implies ((#[trigger] b.subs[s]) matches
            SubmissionPhase::Executing { worker } ==> worker < b.worker_tasks.len()
                && b.worker_tasks[worker as int] == Some(s as usize)) by {
                if s != sid {
                    match a.subs[s] {
                        SubmissionPhase::Executing { worker } => {
                            assert(a.worker_tasks[worker as int] == Some(s as usize));
                            assert(worker != w);
                        },
                        _ => {},
                    }
                }
            }
        },
        None => {},
    }
}

/// Every pool step preserves the invariant: from a well-formed state,
/// whatever happens — a submission, an admission, a timeout, a caller giving
/// up, a dispatch, a discard, a delivery — leads to a well-formed state.
pub proof fn lemma_step_preserves_wf(a: PoolModel, b: PoolModel)
    requires
        a.wf(),
        pool_step(a, b),
    ensures
        b.wf(),
{
    if step_submit(a, b) {
        wf_after_submit(a, b);
    } else if step_admit(a, b) {
        let sid = choose|sid: usize| step_admit_at(a, b, sid);
        wf_after_admit(a, b, sid);
    } else if step_timeout(a, b) {
        let sid = choose|sid: usize| step_timeout_at(a, b, sid);
        wf_after_phase_only(a, b, sid, SubmissionPhase::TimedOut);
    } else if step_abandon(a, b) {
        let sid = choose|sid: usize| step_abandon_at(a, b, sid);
        wf_after_phase_only(a, b, sid, SubmissionPhase::Queued { caller_waiting: false });
    } else if step_dispatch(a, b) {
        let w = choose|w: usize| step_dispatch_at(a, b, w);
        wf_after_dispatch(a, b, w);
    } else if step_discard(a, b) {
        wf_after_discard(a, b);
    } else if step_finish(a, b) {
        let (w, ok) = choose|w: usize, ok: bool| step_finish_at(a, b, w, ok);
        wf_after_finish(a, b, w, ok);
    }
}

/// Along any run of the pool from a well-formed state, every state is
/// well-formed — so the capacity bound of [`lemma_admitted_bounded_by_cap`]
/// holds at every moment of the run.
pub proof fn lemma_wf_along_trace(tr: Seq<PoolModel>)
    requires
        pool_trace(tr),
        tr.len() > 0,
        tr[0].wf(),
    ensures
        forall|j: int| 0 <= j < tr.len() ==> (#[trigger] tr[j]).wf(),
    decreases tr.len(),
{
    if tr.len() > 1 {
        assert(pool_step(tr[0], tr[1]));
        lemma_step_preserves_wf(tr[0], tr[1]);
        let rest = tr.drop_first();
        assert forall|i: int|
            0 <= i < rest.len() - 1 implies pool_step(#[trigger] rest[i], rest[i + 1]) by {
            assert(rest[i] == tr[i + 1]);
            assert(rest[i + 1] == tr[i + 2]);
            assert(pool_step(tr[i + 1], tr[i + 2]));
        }
        lemma_wf_along_trace(rest);
        assert forall|j: int| 0 <= j < tr.len() implies (#[trigger] tr[j]).wf() by {
            if j > 0 {
                assert(rest[j - 1] == tr[j]);
            }
        }
    }
}

/// Permits never go negative, so in every well-formed pool state the number
/// of simultaneously admitted, uncompleted submissions — queued or executing,
/// each holding one of the `cap` permits from admission until its result is
/// delivered — never exceeds the capacity.
pub proof fn lemma_admitted_bounded_by_cap(m: PoolModel)
    requires
        m.wf(),
    ensures
        admitted_live(m.subs) <= m.cap,
{
}

/// A submission that timed out waiting for admission left no trace: it is
/// not in the dispatch queue and no worker is executing it.
pub proof fn lemma_timed_out_untouched(m: PoolModel, sid: usize)
    requires
        m.wf(),
        sid < m.subs.len(),
        m.subs[sid as int] is TimedOut,
    ensures
        !m.queue.contains(sid),
        forall|w: int| 0 <= w < m.worker_tasks.len() ==> #[trigger] m.worker_tasks[w] != Some(sid),
{
    assert forall|w: int|
        0 <= w < m.worker_tasks.len() implies #[trigger] m.worker_tasks[w] != Some(sid) by {
        if m.worker_tasks[w] == Some(sid) {
            assert(m.subs[sid as int] is Executing);
        }
    }
    if m.queue.contains(sid) {
        let i = choose|i: int| 0 <= i < m.queue.len() && m.queue[i] == sid;
        assert(m.subs[m.queue[i] as int] is Queued);
    }
}

/// A settled submission never changes again under any pool step: a delivered
/// result stays exactly as delivered (no second delivery, to nobody else), a
/// timed-out submission is never dispatched, a discarded packet never runs.
pub proof fn lemma_settled_stays(a: PoolModel, b: PoolModel, sid: int)
    requires
        a.wf(),
        pool_step(a, b),
        0 <= sid < a.subs.len(),
        is_settled(a.subs[sid]),
    ensures
        a.subs.len() <= b.subs.len(),
        b.subs[sid] == a.subs[sid],
{
    if step_admit(a, b) {
        let s = choose|s: usize| step_admit_at(a, b, s);
        assert(s != sid);
    } else if step_timeout(a, b) {
        let s = choose|s: usize| step_timeout_at(a, b, s);
        assert(s != sid);
    } else if step_abandon(a, b) {
        let s = choose|s: usize| step_abandon_at(a, b, s);
        assert(s != sid);
    } else if step_dispatch(a, b) {
        let w = choose|w: usize| step_dispatch_at(a, b, w);
        assert(a.queue[0] != sid);
    } else if step_discard(a, b) {
        assert(a.queue[0] != sid);
    } else if step_finish(a, b) {
        let (w, ok) = choose|w: usize, ok: bool| step_finish_at(a, b, w, ok);
        match a.worker_tasks[w as int] {
            Some(s) => {
                assert(a.subs[s as int] is Executing);
                assert(s != sid);
            },
            None => {},
        }
    }
}

/// The moves a submission's phase can make in one step: admission or timeout
/// from waiting; giving up, dispatch or — once the caller is gone — discard
/// from queued; delivery from executing. The terminal phases allow nothing.
pub open spec fn may_follow(p: SubmissionPhase, q: SubmissionPhase) -> bool {
    match (p, q) {
        (SubmissionPhase::Waiting, SubmissionPhase::Queued { caller_waiting: true }) => true,
        (SubmissionPhase::Waiting, SubmissionPhase::TimedOut) => true,
        (
            SubmissionPhase::Queued { caller_waiting: true },
            SubmissionPhase::Queued { caller_waiting: false },
        ) => true,
        (SubmissionPhase::Queued { caller_waiting: true }, SubmissionPhase::Executing { .. }) => true,
        (SubmissionPhase::Queued { caller_waiting: false }, SubmissionPhase::Discarded) => true,
        (SubmissionPhase::Executing { .. }, SubmissionPhase::Completed { .. }) => true,
        _ => false,
    }
}

/// Every pool step either leaves a submission's phase alone or moves it one
/// edge along the lifecycle: a submission is admitted at most once, executes
/// only after dispatch, and is delivered at most one result, after which
/// nothing follows.
pub proof fn lemma_lifecycle(a: PoolModel, b: PoolModel, sid: int)
    requires
        a.wf(),
        pool_step(a, b),
        0 <= sid < a.subs.len(),
    ensures
        sid < b.subs.len(),
        b.subs[sid] == a.subs[sid] || may_follow(a.subs[sid], b.subs[sid]),
{
    if step_submit(a, b) {
        assert(b.subs[sid] == a.subs[sid]);
    } else if step_admit(a, b) {
        let s = choose|s: usize| step_admit_at(a, b, s);
        if s as int != sid {
            assert(b.subs[sid] == a.subs[sid]);
        }
    } else if step_timeout(a, b) {
        let s = choose|s: usize| step_timeout_at(a, b, s);
        if s as int != sid {
            assert(b.subs[sid] == a.subs[sid]);
        }
    } else if step_abandon(a, b) {
        let s = choose|s: usize| step_abandon_at(a, b, s);
        if s as int != sid {
            assert(b.subs[sid] == a.subs[sid]);
        }
    } else if step_dispatch(a, b) {
        let w = choose|w: usize| step_dispatch_at(a, b, w);
        if a.queue[0] as int != sid {
            assert(b.subs[sid] == a.subs[sid]);
        }
    } else if step_discard(a, b) {
        if a.queue[0] as int != sid {
            assert(b.subs[sid] == a.subs[sid]);
        }
    } else if step_finish(a, b) {
        let (w, ok) = choose|w: usize, ok: bool| step_finish_at(a, b, w, ok);
        match a.worker_tasks[w as int] {
            Some(s) => {
                if s as int != sid {
                    assert(b.subs[sid] == a.subs[sid]);
                } else {
                    assert(a.subs[sid] is Executing);
                }
            },
            None => {},
        }
    }
}

/// A result appears only by delivery: when a step turns a submission's phase
/// into `Completed`, the submission was being executed, and the worker that
/// was executing it is the one freed by the step — no result is ever
/// conjured for a submission that never ran, and none lands at another
/// submission's slot.
pub proof fn lemma_completion_needs_execution(a: PoolModel, b: PoolModel, sid: int)
    requires
        a.wf(),
        pool_step(a, b),
        0 <= sid < a.subs.len(),
        !(a.subs[sid] is Completed),
        sid < b.subs.len() && b.subs[sid] is Completed,
    ensures
        a.subs[sid] is Executing,
        exists|w: usize, ok: bool|
            #[trigger] step_finish_at(a, b, w, ok) && a.worker_tasks[w as int] == Some(
                sid as usize,
            ),
{
    if step_submit(a, b) {
        assert(b.subs[sid] == a.subs[sid]);
    } else if step_admit(a, b) {
        let s = choose|s: usize| step_admit_at(a, b, s);
        assert(!(b.subs[sid] is Completed));
    } else if step_timeout(a, b) {
        let s = choose|s: usize| step_timeout_at(a, b, s);
        assert(!(b.subs[sid] is Completed));
    } else if step_abandon(a, b) {
        let s = choose|s: usize| step_abandon_at(a, b, s);
        assert(!(b.subs[sid] is Completed));
    } else if step_dispatch(a, b) {
        let w = choose|w: usize| step_dispatch_at(a, b, w);
        assert(!(b.subs[sid] is Completed));
    } else if step_discard(a, b) {
        assert(!(b.subs[sid] is Completed));
    } else if step_finish(a, b) {
        let (w, ok) = choose|w: usize, ok: bool| step_finish_at(a, b, w, ok);
        match a.worker_tasks[w as int] {
            Some(s) => {
                if s as int != sid {
                    assert(b.subs[sid] == a.subs[sid]);
                } else {
                    assert(a.subs[sid] is Executing);
                }
            },
            None => {},
        }
    }
}

/// Whether each state in the sequence follows from the one before it by one
/// pool step.
pub open spec fn pool_trace(tr: Seq<PoolModel>) -> bool {
    forall|i: int| 0 <= i < tr.len() - 1 ==> pool_step(#[trigger] tr[i], tr[i + 1])
}

/// Along any run of the pool, a submission once settled keeps its phase to
/// the end: a result is delivered exactly once per submission, recorded only
/// at the submission's own slot, and a timed-out submission never becomes
/// anything else — in particular it never executes.
pub proof fn lemma_settled_stays_forever(tr: Seq<PoolModel>, sid: int)
    requires
        pool_trace(tr),
        tr.len() > 0,
        tr[0].wf(),
        0 <= sid < tr[0].subs.len(),
        is_settled(tr[0].subs[sid]),
    ensures
        forall|j: int|
            0 <= j < tr.len() ==> sid < (#[trigger] tr[j]).subs.len() && tr[j].subs[sid]
                == tr[0].subs[sid],
    decreases tr.len(),
{
    if tr.len() > 1 {
        lemma_settled_stays(tr[0], tr[1], sid);
        lemma_step_preserves_wf(tr[0], tr[1]);
        let rest = tr.drop_first();
        assert forall|i: int|
            0 <= i < rest.len() - 1 implies pool_step(#[trigger] rest[i], rest[i + 1]) by {
            assert(rest[i] == tr[i + 1]);
            assert(rest[i + 1] == tr[i + 2]);
            assert(pool_step(tr[i + 1], tr[i + 2]));
        }
        assert(rest[0] == tr[1]);
        lemma_settled_stays_forever(rest, sid);
        assert forall|j: int|
            0 <= j < tr.len() implies sid < (#[trigger] tr[j]).subs.len() && tr[j].subs[sid]
                == tr[0].subs[sid] by {
            if j > 0 {
                assert(rest[j - 1] == tr[j]);
            }
        }
    }
}

/// Pushing a phase onto the record changes the number of held permits by
/// that phase's own contribution.
proof fn lemma_live_push(s: Seq<SubmissionPhase>, p: SubmissionPhase)
    ensures
        admitted_live(s.push(p)) == admitted_live(s) + permit_count(p),
{
    assert(s.push(p).drop_last() =~= s);
    assert(s.push(p).last() == p);
}

/// Replacing one phase changes the number of held permits by the difference
/// of the two phases' contributions.
proof fn lemma_live_update(s: Seq<SubmissionPhase>, i: int, p: SubmissionPhase)
    requires
        0 <= i < s.len(),
    ensures
        admitted_live(s.update(i, p)) == admitted_live(s) - permit_count(s[i]) + permit_count(p),
    decreases s.len(),
{
    let t = s.update(i, p);
    if i == s.len() - 1 {
        assert(t.drop_last() =~= s.drop_last());
        assert(t.last() == p);
    } else {
        assert(t.drop_last() =~= s.drop_last().update(i, p));
        lemma_live_update(s.drop_last(), i, p);
        assert(t.last() == s.last());
        assert(s.drop_last()[i] == s[i]);
    }
}

/// The number of held permits is never negative.
proof fn lemma_live_nonneg(s: Seq<SubmissionPhase>)
    ensures
        admitted_live(s) >= 0,
    decreases s.len(),
{
    if s.len() > 0 {
        lemma_live_nonneg(s.drop_last());
    }
}

} // verus!
