//! Supervision of external process dependencies: each managed definition gets
//! one control loop that launches the process, relaunches it whenever it
//! exits — every exit counts, with no distinction between a clean exit and a
//! crash — waits out a fixed backoff after a failed launch attempt, and shuts
//! the process down for good on an interrupt.
//!
//! The loop's policy is a state machine over three states. A driver performs
//! the work the current state stands for (waiting on the live process, waiting
//! out the backoff and relaunching) and reports what happened; the machine
//! decides what the loop does next. A broadcast interrupt moves every loop to
//! the terminal [`LoopState::Stopped`] state, out of which nothing leads.

use vstd::prelude::*;

verus! {

/// State of one control loop, each loop holding at most one live process.
#[derive(Debug, Clone, Copy, PartialEq, Eq, Structural)]
pub enum LoopState {
    /// No live process: the last launch attempt failed, and the loop waits
    /// out a fixed backoff before the next one.
    Starting,
    /// A live process is running; the loop waits for it to exit or for an
    /// interrupt.
    Running,
    /// Terminal: the process, if one was live, has been stopped, and the loop
    /// never relaunches anything.
    Stopped,
}

/// What a loop's driver reports.
#[derive(Debug, Clone, Copy, PartialEq, Eq, Structural)]
pub enum LoopEvent {
    /// The stop signal was broadcast to every loop.
    Interrupt,
    /// The non-interrupt branch of the loop's race fired — the live process
    /// exited, or, with no live process, the backoff elapsed — and the
    /// relaunch then attempted went `relaunch_ok`.
    Lapse { relaunch_ok: bool },
}

/// Whether a loop in state `s` holds a live process.
pub open spec fn has_live_process(s: LoopState) -> bool {
    s is Running
}

/// The transition relation of one control loop: an interrupt is terminal from
/// every state and stops the live process if one is held; every process exit
/// with no interrupt pending leads straight to a relaunch attempt, as does an
/// elapsed backoff; a failed attempt puts the loop back into backoff. Events
/// reaching a stopped loop change nothing.
pub open spec fn loop_next(s: LoopState, e: LoopEvent) -> LoopState {
    match s {
        LoopState::Stopped => LoopState::Stopped,
        _ => match e {
            LoopEvent::Interrupt => LoopState::Stopped,
            LoopEvent::Lapse { relaunch_ok } => {
                if relaunch_ok {
                    LoopState::Running
                } else {
                    LoopState::Starting
                }
            },
        },
    }
}

/// Step one control loop on what its driver reports. Returns, besides the new
/// state, whether the driver must stop a live process now — true exactly when
/// the interrupt reached a loop that held one.
pub fn loop_step(s: LoopState, e: LoopEvent) -> (r: (LoopState, bool))
    ensures
        r.0 == loop_next(s, e),
        r.1 == (has_live_process(s) && e is Interrupt && !(s is Stopped)),
{
    match s {
        LoopState::Stopped => (LoopState::Stopped, false),
        _ => match e {
            LoopEvent::Interrupt => (
                LoopState::Stopped,
                matches!(s, LoopState::Running),
            ),
            LoopEvent::Lapse { relaunch_ok } => {
                if relaunch_ok {
                    (LoopState::Running, false)
                } else {
                    (LoopState::Starting, false)
                }
            },
        },
    }
}

/// The state of a loop after it processes `events` in order from state `s`.
pub open spec fn loop_run(s: LoopState, events: Seq<LoopEvent>) -> LoopState
    decreases events.len(),
{
    if events.len() == 0 {
        s
    } else {
        loop_run(loop_next(s, events[0]), events.drop_first())
    }
}

/// `Stopped` is terminal: whatever events still arrive — process exits,
/// elapsed backoffs, further interrupts — a stopped loop stays stopped, never
/// holds a live process again, and in particular never relaunches one.
pub proof fn lemma_stopped_is_terminal(events: Seq<LoopEvent>)
    ensures
        loop_run(LoopState::Stopped, events) == LoopState::Stopped,
        !has_live_process(loop_run(LoopState::Stopped, events)),
    decreases events.len(),
{
    if events.len() > 0 {
        lemma_stopped_is_terminal(events.drop_first());
    }
}

/// Once a loop receives the interrupt, it ends stopped with no live process,
/// whatever came before the interrupt and whatever comes after it.
pub proof fn lemma_interrupt_quiesces(s: LoopState, events: Seq<LoopEvent>)
    requires
        events.contains(LoopEvent::Interrupt),
    ensures
        loop_run(s, events) == LoopState::Stopped,
        !has_live_process(loop_run(s, events)),
    decreases events.len(),
{
    let i = choose|i: int| 0 <= i < events.len() && events[i] == LoopEvent::Interrupt;
    if i == 0 {
        lemma_stopped_is_terminal(events.drop_first());
    } else {
        assert(events.drop_first()[i - 1] == LoopEvent::Interrupt);
        assert(events.drop_first().contains(LoopEvent::Interrupt));
        lemma_interrupt_quiesces(loop_next(s, events[0]), events.drop_first());
    }
}

/// Manages one or more independently defined external processes: one control
/// loop per managed definition, all of them reachable by one broadcast stop
/// signal.
pub struct Supervisor {
    loops: Vec<LoopState>,
}

impl Supervisor {
    /// The states of the managed control loops, in the order they were added.
    pub closed spec fn loops(self) -> Seq<LoopState> {
        self.loops@
    }

    /// A supervisor managing nothing yet.
    pub fn new() -> (s: Self)
        ensures
            s.loops() =~= Seq::<LoopState>::empty(),
    {
        Supervisor { loops: Vec::new() }
    }

    /// Take over one managed definition whose initial launch attempt went
    /// `launch_ok`: a new control loop, running its process if the launch
    /// succeeded and waiting out the backoff before retrying if not. Returns
    /// the loop's index.
    pub fn run(&mut self, launch_ok: bool) -> (i: usize)
        ensures
            final(self).loops() == old(self).loops().push(
                if launch_ok {
                    LoopState::Running
                } else {
                    LoopState::Starting
                },
            ),
            i == old(self).loops().len(),
    {
        let i = self.loops.len();
        if launch_ok {
            self.loops.push(LoopState::Running);
        } else {
            self.loops.push(LoopState::Starting);
        }
        i
    }

    /// Step the loop at index `i` on what its driver reports. Returns whether
    /// the driver must stop that loop's live process now.
    pub fn loop_step(&mut self, i: usize, e: LoopEvent) -> (must_stop: bool)
        requires
            i < old(self).loops().len(),
        ensures
            final(self).loops() == old(self).loops().update(
                i as int,
                loop_next(old(self).loops()[i as int], e),
            ),
            must_stop == (has_live_process(old(self).loops()[i as int]) && e is Interrupt),
    {
        let (next, must_stop) = loop_step(self.loops[i], e);
        self.loops[i] = next;
        must_stop
    }

    /// Broadcast the interrupt to every managed loop and wait for all of them
    /// to finish: afterwards every loop is stopped, no managed process is
    /// live, and (by [`lemma_stopped_is_terminal`]) none is ever relaunched.
    pub fn stop(&mut self)
        ensures
            final(self).loops().len() == old(self).loops().len(),
            forall|i: int|
                0 <= i < final(self).loops().len() ==> final(self).loops()[i]
                    == LoopState::Stopped,
            forall|i: int|
                0 <= i < final(self).loops().len() ==> !has_live_process(
                    #[trigger] final(self).loops()[i],
                ),
    {
        let n = self.loops.len();
        let mut i: usize = 0;
        while i < n
            invariant
                n == self.loops@.len(),
                i <= n,
                forall|j: int| 0 <= j < i ==> self.loops@[j] == LoopState::Stopped,
            decreases n - i,
        {
            let (next, _must_stop) = loop_step(self.loops[i], LoopEvent::Interrupt);
            self.loops[i] = next;
            i = i + 1;
        }
    }

    /// Whether every managed loop has reached the terminal state.
    pub fn all_stopped(&self) -> (r: bool)
        ensures
            r == (forall|i: int|
                0 <= i < self.loops().len() ==> #[trigger] self.loops()[i] == LoopState::Stopped),
    {
        let n = self.loops.len();
        let mut i: usize = 0;
        while i < n
            invariant
                n == self.loops@.len(),
                i <= n,
                forall|j: int| 0 <= j < i ==> self.loops@[j] == LoopState::Stopped,
            decreases n - i,
        {
            let here = self.loops[i];
            match here {
                LoopState::Stopped => {},
                _ => {
                    return false;
                },
            }
            i = i + 1;
        }
        true
    }

    /// The state of the loop at index `i`.
    pub fn loop_state(&self, i: usize) -> (s: LoopState)
        requires
            i < self.loops().len(),
        ensures
            s == self.loops()[i as int],
    {
        self.loops[i]
    }
}

impl Default for Supervisor {
    /// Same as [`Supervisor::new`].
    fn default() -> (s: Self)
        ensures
            s.loops() =~= Seq::<LoopState>::empty(),
    {
        Supervisor::new()
    }
}

} // verus!
