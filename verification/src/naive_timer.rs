//! A deadline-based timer that is busy-polled against a clock reading,
//! rather than woken by a timer source: the naive precursor of the
//! wake-driven timer.

use vstd::prelude::*;
use crate::task::DriveResult;

verus! {

/// A timer that records an absolute deadline at its first poll and compares
/// later polls' clock readings against it. The clock itself lives outside
/// the library: each poll takes the current time as a value.
pub struct AsyncTimer {
    duration_ms: u64,
    end: Option<u64>,
    id: String,
}

impl AsyncTimer {
    pub closed spec fn duration_ms(&self) -> u64 {
        self.duration_ms
    }

    /// The absolute deadline, `None` until the first poll.
    pub closed spec fn end(&self) -> Option<u64> {
        self.end
    }

    pub closed spec fn id_view(&self) -> Seq<char> {
        self.id@
    }

    pub fn new(duration_ms: u64, id: &str) -> (t: AsyncTimer)
        ensures
            t.duration_ms() == duration_ms,
            t.end() is None,
            t.id_view() == id@,
    {
        AsyncTimer { duration_ms, end: None, id: id.to_owned() }
    }

    /// The timer's label, for reporting.
    pub fn id(&self) -> (r: &String)
        ensures
            r@ == self.id_view(),
    {
        &self.id
    }

    /// One poll against the given clock reading. The first poll fixes the
    /// deadline at `now_ms` plus the duration and reports `Pending`; a later
    /// poll reports `Pending` strictly before the deadline and `Done` from
    /// the deadline on.
    pub fn poll(&mut self, now_ms: u64) -> (r: DriveResult)
        requires
            old(self).end() is None ==> now_ms + old(self).duration_ms() <= u64::MAX,
        ensures
            final(self).duration_ms() == old(self).duration_ms(),
            final(self).id_view() == old(self).id_view(),
            old(self).end() is None ==> final(self).end() == Some(
                (now_ms + old(self).duration_ms()) as u64,
            ) && r is Pending,
            old(self).end() is Some ==> final(self).end() == old(self).end() && (r is Done <==> now_ms
                >= old(self).end().unwrap()),
    {
        match self.end {
            Some(end) => {
                if now_ms < end {
                    DriveResult::Pending
                } else {
                    DriveResult::Done
                }
            },
            None => {
                self.end = Some(now_ms + self.duration_ms);
                DriveResult::Pending
            },
        }
    }
}

} // verus!
