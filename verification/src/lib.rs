//! A minimal cooperative task runtime, verified.
//!
//! The crate models the core of a single-threaded async runtime:
//! suspendable computations represented as explicit state machines
//! ([`task::Drivable`], [`coroutine::CoroutineB`], [`timer::TimerTask`]),
//! a scheduler that owns a task table and a FIFO ready queue and drives
//! every scheduled computation to completion ([`executor::Executor`]),
//! wake handles that mark one task as ready again ([`executor::MyWaker`]),
//! and a readiness multiplexer that turns observed I/O readiness into
//! wake invocations ([`reactor`]).
//!
//! Blocking waits themselves (timer threads, the OS poll call) are the
//! job of external collaborators: a computation that cannot progress
//! reports `Pending`, the handle it recorded is fired later, and only
//! then is the computation driven again.

pub mod task;
pub mod timer;
pub mod naive_timer;
pub mod coroutine;
pub mod executor;
pub mod reactor;
pub mod self_ref;
