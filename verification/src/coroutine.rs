//! The hand-expanded coroutine: sequential "wait, then continue" logic turned
//! into an explicit, drivable state machine with one variant per suspension
//! point.

use vstd::prelude::*;
use crate::task::{Drivable, DriveResult};
use crate::timer::AsyncTimer;

verus! {

/// The first greeting the coroutine writes into its buffer.
pub open spec fn hello_bytes() -> Seq<u8> {
    seq![72u8, 101u8, 108u8, 108u8, 111u8, 32u8]
}

/// The second greeting the coroutine writes into its buffer.
pub open spec fn world_bytes() -> Seq<u8> {
    seq![87u8, 111u8, 114u8, 108u8, 100u8, 33u8, 33u8, 33u8]
}

/// The phases of a two-wait coroutine, one `Wait` variant per suspension
/// point, each owning the nested computation it is waiting on.
#[derive(Clone, Copy)]
pub enum CoroutineState {
    Start,
    Wait1(AsyncTimer),
    Wait2(AsyncTimer),
    Resolved,
}

/// The desugared form of a computation that awaits two timers in sequence
/// and keeps no state of its own besides the phase tag: what "wait, then
/// wait again, then finish" compiles to as an explicit, drivable object.
#[derive(Clone, Copy)]
pub struct Coroutine {
    state: CoroutineState,
}

/// Build the two-wait coroutine in its start phase, each wait lasting two
/// seconds.
pub fn coroutine_transformed() -> (c: Coroutine)
    ensures
        c.wf(),
        !c.resolved(),
        c.phase() == 0,
{
    Coroutine { state: CoroutineState::Start }
}

impl Drivable for Coroutine {
    closed spec fn wf(&self) -> bool {
        match self.state {
            CoroutineState::Wait1(t) => t.is_started(),
            CoroutineState::Wait2(t) => t.is_started(),
            _ => true,
        }
    }

    closed spec fn resolved(&self) -> bool {
        self.state is Resolved
    }

    closed spec fn phase(&self) -> nat {
        match self.state {
            CoroutineState::Start => 0,
            CoroutineState::Wait1(_) => 1,
            CoroutineState::Wait2(_) => 2,
            CoroutineState::Resolved => 3,
        }
    }

    closed spec fn work_left(&self) -> nat {
        (3 - self.phase()) as nat
    }

    proof fn work_left_zero_iff_resolved(&self) {
    }

    /// One resumption step: advance the tag until a nested wait reports
    /// `Pending`, and resolve once the second wait is over.
    fn drive(&mut self) -> (r: DriveResult)
        ensures
            final(self).phase() == old(self).phase() + 1,
            r is Pending <==> final(self).phase() < 3,
    {
        match self.state {
            CoroutineState::Start => {
                let mut t = AsyncTimer::new(2000);
                let _ = t.poll();
                self.state = CoroutineState::Wait1(t);
                DriveResult::Pending
            },
            CoroutineState::Wait1(timer) => {
                let mut t = timer;
                match t.poll() {
                    DriveResult::Pending => {
                        self.state = CoroutineState::Wait1(t);
                        DriveResult::Pending
                    },
                    DriveResult::Done => {
                        let mut t2 = AsyncTimer::new(2000);
                        let _ = t2.poll();
                        self.state = CoroutineState::Wait2(t2);
                        DriveResult::Pending
                    },
                }
            },
            CoroutineState::Wait2(timer) => {
                let mut t = timer;
                match t.poll() {
                    DriveResult::Pending => {
                        self.state = CoroutineState::Wait2(t);
                        DriveResult::Pending
                    },
                    DriveResult::Done => {
                        self.state = CoroutineState::Resolved;
                        DriveResult::Done
                    },
                }
            },
            CoroutineState::Resolved => {
                // Excluded by precondition: a resolved coroutine cannot be
                // redriven.
                DriveResult::Done
            },
        }
    }
}

/// The stack frame the coroutine keeps alive across suspension points: the
/// buffer it owns, and the cursor that stands for a suspended borrow into that
/// buffer. The cursor is an offset from the buffer's start, turned into a
/// position only at the point of use, so the coroutine stays freely movable
/// even while the cursor exists; an address-based cursor would instead pin the
/// coroutine in memory from the first suspension on.
pub struct Stack {
    buffer: Option<Vec<u8>>,
    writer: Option<usize>,
}

/// A computation with two sequential waits: it creates a buffer, waits out a
/// timer, appends a first greeting, waits out a second timer, appends a second
/// greeting, then resolves and releases the buffer.
pub struct CoroutineB {
    stack: Stack,
    state: CoroutineState,
}

impl CoroutineB {
    /// Contents of the coroutine's buffer, `None` before the first step and
    /// after resolution.
    pub closed spec fn buffer_view(&self) -> Option<Seq<u8>> {
        match self.stack.buffer {
            Some(b) => Some(b@),
            None => None,
        }
    }

    /// Position of the suspended writer cursor within the buffer.
    pub closed spec fn cursor(&self) -> Option<usize> {
        self.stack.writer
    }

    /// While a cursor exists it lies within the buffer it refers to.
    pub closed spec fn cursor_in_buffer(&self) -> bool {
        match self.stack.writer {
            Some(w) => self.stack.buffer is Some && w <= self.stack.buffer.unwrap()@.len(),
            None => true,
        }
    }

    pub fn new() -> (c: CoroutineB)
        ensures
            c.wf(),
            !c.resolved(),
            c.phase() == 0,
            c.buffer_view() is None,
            c.cursor() is None,
    {
        CoroutineB { stack: Stack { buffer: None, writer: None }, state: CoroutineState::Start }
    }

    /// A copy of the buffer, for observation between steps.
    pub fn buffer(&self) -> (r: Option<Vec<u8>>)
        ensures
            match r {
                Some(b) => self.buffer_view() == Some(b@),
                None => self.buffer_view() is None,
            },
    {
        match &self.stack.buffer {
            Some(b) => {
                let mut copy: Vec<u8> = Vec::new();
                let mut i: usize = 0;
                while i < b.len()
                    invariant
                        i <= b@.len(),
                        copy@ == b@.subrange(0, i as int),
                    decreases b@.len() - i,
                {
                    copy.push(b[i]);
                    assert(copy@ =~= b@.subrange(0, i + 1));
                    i = i + 1;
                }
                assert(copy@ =~= b@);
                Some(copy)
            },
            None => None,
        }
    }
}

impl Drivable for CoroutineB {
    closed spec fn wf(&self) -> bool {
        &&& self.cursor_in_buffer()
        &&& match self.state {
            CoroutineState::Start => self.stack.buffer is None && self.stack.writer is None,
            CoroutineState::Wait1(t) => t.is_started() && self.buffer_view() == Some(
                Seq::<u8>::empty(),
            ) && self.stack.writer == Some(0usize),
            CoroutineState::Wait2(t) => t.is_started() && self.buffer_view() == Some(
                hello_bytes(),
            ) && self.stack.writer == Some(6usize),
            CoroutineState::Resolved => self.stack.buffer is None && self.stack.writer is None,
        }
    }

    closed spec fn resolved(&self) -> bool {
        self.state is Resolved
    }

    closed spec fn phase(&self) -> nat {
        match self.state {
            CoroutineState::Start => 0,
            CoroutineState::Wait1(_) => 1,
            CoroutineState::Wait2(_) => 2,
            CoroutineState::Resolved => 3,
        }
    }

    closed spec fn work_left(&self) -> nat {
        (3 - self.phase()) as nat
    }

    proof fn work_left_zero_iff_resolved(&self) {
    }

    /// One resumption step, advancing the tag until a nested wait reports
    /// `Pending`. Each phase transition writes the side effect of the phase it
    /// leaves, so the first greeting stands in the buffer strictly before the
    /// second one.
    fn drive(&mut self) -> (r: DriveResult)
        ensures
            old(self).phase() == 0 ==> final(self).phase() == 1 && r is Pending
                && final(self).buffer_view() == Some(Seq::<u8>::empty())
                && final(self).cursor() == Some(0usize),
            old(self).phase() == 1 ==> final(self).phase() == 2 && r is Pending
                && final(self).buffer_view() == Some(hello_bytes())
                && final(self).cursor() == Some(6usize),
            old(self).phase() == 2 ==> final(self).phase() == 3 && r is Done
                && final(self).buffer_view() is None,
    {
        match self.state {
            CoroutineState::Start => {
                // Create the buffer and take the cursor into it, then begin
                // the first wait.
                let buffer: Vec<u8> = Vec::new();
                self.stack.buffer = Some(buffer);
                self.stack.writer = Some(0);
                let mut t = AsyncTimer::new(2000);
                let _ = t.poll();
                self.state = CoroutineState::Wait1(t);
                DriveResult::Pending
            },
            CoroutineState::Wait1(timer) => {
                let mut t = timer;
                match t.poll() {
                    DriveResult::Pending => {
                        self.state = CoroutineState::Wait1(t);
                        DriveResult::Pending
                    },
                    DriveResult::Done => {
                        // First wait over: write through the cursor, advance
                        // it, and begin the second wait.
                        let mut taken: Option<Vec<u8>> = None;
                        core::mem::swap(&mut taken, &mut self.stack.buffer);
                        let mut buffer = taken.unwrap();
                        let ghost b0 = buffer@;
                        buffer.push(72);
                        buffer.push(101);
                        buffer.push(108);
                        buffer.push(108);
                        buffer.push(111);
                        buffer.push(32);
                        assert(buffer@ =~= b0 + hello_bytes());
                        let cursor = buffer.len();
                        self.stack.buffer = Some(buffer);
                        self.stack.writer = Some(cursor);
                        let mut t2 = AsyncTimer::new(2000);
                        let _ = t2.poll();
                        self.state = CoroutineState::Wait2(t2);
                        DriveResult::Pending
                    },
                }
            },
            CoroutineState::Wait2(timer) => {
                let mut t = timer;
                match t.poll() {
                    DriveResult::Pending => {
                        self.state = CoroutineState::Wait2(t);
                        DriveResult::Pending
                    },
                    DriveResult::Done => {
                        // Second wait over: write the closing greeting, then
                        // resolve and release the stack frame.
                        let mut taken: Option<Vec<u8>> = None;
                        core::mem::swap(&mut taken, &mut self.stack.buffer);
                        let mut buffer = taken.unwrap();
                        let ghost b0 = buffer@;
                        buffer.push(87);
                        buffer.push(111);
                        buffer.push(114);
                        buffer.push(108);
                        buffer.push(100);
                        buffer.push(33);
                        buffer.push(33);
                        buffer.push(33);
                        assert(buffer@ =~= b0 + world_bytes());
                        self.stack.buffer = None;
                        self.stack.writer = None;
                        self.state = CoroutineState::Resolved;
                        DriveResult::Done
                    },
                }
            },
            CoroutineState::Resolved => {
                // Excluded by precondition: a resolved coroutine cannot be
                // redriven.
                DriveResult::Done
            },
        }
    }
}

} // verus!
