//! Infrastructure for running many rendering requests safely against a small,
//! expensive pool of backend sessions: a bounded-concurrency worker pool with
//! admission control ([`pool`]), a retry-on-failure policy around one task
//! execution ([`retry`]), an event-driven network-idle detector ([`idle`]),
//! a process-supervision policy ([`supervisor`]), and the per-payload
//! rendering plan ([`plan`]).
//!
//! Each component's coordination logic is a state machine over plain values,
//! with its transitions stated and proved here; the asynchronous plumbing
//! that drives the machines (channels, timers, process handles) lives outside
//! the library.

pub mod idle;
pub mod plan;
pub mod pool;
pub mod retry;
pub mod supervisor;
