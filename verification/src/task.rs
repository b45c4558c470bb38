//! The contract of a suspendable computation.

use vstd::prelude::*;

verus! {

/// What one resumption step reports: either the computation completed, or it
/// recorded the wake handle it was offered somewhere that will invoke the
/// handle once the blocking condition clears, and must not be driven again
/// until that happens.
#[derive(Clone, Copy, PartialEq, Eq, Debug)]
pub enum DriveResult {
    Done,
    Pending,
}

/// A suspendable computation: an explicit state machine that the scheduler
/// advances one resumption step at a time.
///
/// The phases of such a machine are ordered (start, then one waiting phase per
/// suspension point, then resolved); `phase` gives the index of the current
/// phase and `work_left` bounds the number of resumption steps still needed.
/// Driving a computation that has already resolved is a caller error: the
/// computation discards its state on completion and cannot be redriven, so
/// `drive` excludes that case by precondition.
pub trait Drivable: Sized {
    /// Internal consistency of the computation's state.
    spec fn wf(&self) -> bool;

    /// True once the computation has reached its final phase and produced its
    /// result.
    spec fn resolved(&self) -> bool;

    /// Index of the current phase in the machine's phase order.
    spec fn phase(&self) -> nat;

    /// Upper bound on the number of resumption steps still needed to resolve.
    spec fn work_left(&self) -> nat;

    /// A resolved computation needs no further steps; an unresolved one needs
    /// at least one.
    proof fn work_left_zero_iff_resolved(&self)
        requires
            self.wf(),
        ensures
            self.resolved() <==> self.work_left() == 0,
    ;

    /// One resumption step. The phase never regresses, and every step that
    /// still reports `Pending` makes strict progress towards resolution.
    fn drive(&mut self) -> (r: DriveResult)
        requires
            old(self).wf(),
            !old(self).resolved(),
        ensures
            final(self).wf(),
            old(self).work_left() > 0,
            final(self).phase() >= old(self).phase(),
            r is Done ==> final(self).resolved(),
            r is Pending ==> !final(self).resolved() && final(self).work_left() < old(
                self,
            ).work_left(),
    ;
}

} // verus!
