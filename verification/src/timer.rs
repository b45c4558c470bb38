//! Timer computations: the leaf waits that suspendable computations block on.

use vstd::prelude::*;
use crate::task::{Drivable, DriveResult};

verus! {

/// A one-shot timer. The first poll hands the wake handle to the external
/// timer source (which, after the duration elapses, fires the handle exactly
/// once) and reports `Pending`; because the scheduler only polls again after
/// the handle has fired, any later poll reports `Done`.
#[derive(Clone, Copy)]
pub struct AsyncTimer {
    duration_ms: u64,
    started: bool,
}

impl AsyncTimer {
    pub closed spec fn duration_ms(&self) -> u64 {
        self.duration_ms
    }

    /// True once the wait has begun, that is once the wake handle has been
    /// handed to the timer source.
    pub closed spec fn is_started(&self) -> bool {
        self.started
    }

    pub fn new(duration_ms: u64) -> (t: AsyncTimer)
        ensures
            t.duration_ms() == duration_ms,
            !t.is_started(),
    {
        AsyncTimer { duration_ms, started: false }
    }

    /// One resumption step of the timer.
    pub fn poll(&mut self) -> (r: DriveResult)
        ensures
            final(self).is_started(),
            final(self).duration_ms() == old(self).duration_ms(),
            r is Done <==> old(self).is_started(),
    {
        if !self.started {
            self.started = true;
            DriveResult::Pending
        } else {
            DriveResult::Done
        }
    }
}

/// A computation that waits out a fixed sequence of timers, one after the
/// other: the explicit, drivable form of a loop whose body awaits one timer
/// per iteration. Each suspension point of that loop becomes one element of
/// `durations_ms`.
pub struct TimerTask {
    durations_ms: Vec<u64>,
    idx: usize,
    current: Option<AsyncTimer>,
}

impl TimerTask {
    /// Durations, in order, of the waits this computation performs.
    pub closed spec fn durations(&self) -> Seq<u64> {
        self.durations_ms@
    }

    /// How many waits have fully elapsed so far.
    pub closed spec fn waits_done(&self) -> nat {
        self.idx as nat
    }

    pub fn new(durations_ms: Vec<u64>) -> (t: TimerTask)
        ensures
            t.wf(),
            t.durations() == durations_ms@,
            t.waits_done() == 0,
            t.resolved() <==> durations_ms@.len() == 0,
    {
        TimerTask { durations_ms, idx: 0, current: None }
    }
}

impl Drivable for TimerTask {
    closed spec fn wf(&self) -> bool {
        &&& self.idx <= self.durations_ms@.len()
        &&& match self.current {
            Some(t) => {
                &&& t.is_started()
                &&& self.idx < self.durations_ms@.len()
                &&& t.duration_ms() == self.durations_ms@[self.idx as int]
            },
            None => true,
        }
    }

    closed spec fn resolved(&self) -> bool {
        self.idx == self.durations_ms@.len() && self.current is None
    }

    closed spec fn phase(&self) -> nat {
        2 * (self.idx as nat) + (if self.current is Some {
            1nat
        } else {
            0nat
        })
    }

    closed spec fn work_left(&self) -> nat {
        if self.resolved() {
            0
        } else {
            (self.durations_ms@.len() - self.idx + (if self.current is None {
                1int
            } else {
                0int
            })) as nat
        }
    }

    proof fn work_left_zero_iff_resolved(&self) {
    }

    fn drive(&mut self) -> (r: DriveResult) {
        if self.current.is_some() {
            // The scheduler only drives again once the recorded handle has
            // fired, so the armed timer's wait is over.
            let mut t = self.current.unwrap();
            match t.poll() {
                DriveResult::Pending => {
                    self.current = Some(t);
                    return DriveResult::Pending;
                },
                DriveResult::Done => {
                    let n = self.durations_ms.len();
                    assert(self.idx < n);
                    self.current = None;
                    self.idx = self.idx + 1;
                },
            }
        }
        if self.idx < self.durations_ms.len() {
            // Begin the next wait in the sequence: arm its timer.
            let mut t = AsyncTimer::new(self.durations_ms[self.idx]);
            let _ = t.poll();
            self.current = Some(t);
            DriveResult::Pending
        } else {
            DriveResult::Done
        }
    }
}

} // verus!
