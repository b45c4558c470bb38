//! The scheduler: owns the task table and the FIFO ready queue, drives each
//! dequeued computation exactly once, and blocks (in the model: fires the
//! wake handles that external waits owe it) until every computation has
//! resolved.

use vstd::prelude::*;
use crate::task::{Drivable, DriveResult};

verus! {

/// The ids of a task table, in table order.
pub open spec fn ids_of<T: Drivable>(s: Seq<(usize, T)>) -> Seq<usize> {
    s.map_values(|p: (usize, T)| p.0)
}

/// Resumption steps still owed by a task table: the scheduler's measure of
/// outstanding work.
pub open spec fn table_work<T: Drivable>(s: Seq<(usize, T)>) -> nat
    decreases s.len(),
{
    if s.len() == 0 {
        0
    } else {
        s[0].1.work_left() + table_work(s.drop_first())
    }
}

proof fn lemma_table_work_push<T: Drivable>(s: Seq<(usize, T)>, p: (usize, T))
    ensures
        table_work(s.push(p)) == table_work(s) + p.1.work_left(),
    decreases s.len(),
{
    if s.len() == 0 {
        assert(s.push(p)[0] == p);
        assert(s.push(p).drop_first() =~= Seq::<(usize, T)>::empty());
        assert(table_work(s.push(p)) == p.1.work_left() + table_work(
            Seq::<(usize, T)>::empty(),
        ));
    } else {
        assert(s.push(p).drop_first() =~= s.drop_first().push(p));
        lemma_table_work_push(s.drop_first(), p);
        assert(s.push(p)[0] == s[0]);
    }
}

proof fn lemma_table_work_remove<T: Drivable>(s: Seq<(usize, T)>, i: int)
    requires
        0 <= i < s.len(),
    ensures
        table_work(s) == table_work(s.remove(i)) + s[i].1.work_left(),
    decreases s.len(),
{
    if i == 0 {
        assert(s.remove(0) =~= s.drop_first());
    } else {
        assert(s.remove(i).drop_first() =~= s.drop_first().remove(i - 1));
        assert(s.remove(i)[0] == s[0]);
        lemma_table_work_remove(s.drop_first(), i - 1);
    }
}

proof fn lemma_contains_push<A>(s: Seq<A>, x: A, y: A)
    requires
        s.contains(y) || x == y,
    ensures
        s.push(x).contains(y),
{
    if s.contains(y) {
        let k = choose|k: int| 0 <= k < s.len() && s[k] == y;
        assert(s.push(x)[k] == y);
    } else {
        assert(s.push(x)[s.len() as int] == y);
    }
}

proof fn lemma_contains_push_inv<A>(s: Seq<A>, x: A, y: A)
    requires
        s.push(x).contains(y),
    ensures
        s.contains(y) || x == y,
{
    let k = choose|k: int| 0 <= k < s.push(x).len() && s.push(x)[k] == y;
    if k < s.len() {
        assert(s[k] == y);
    }
}

proof fn lemma_contains_concat<A>(a: Seq<A>, b: Seq<A>, y: A)
    requires
        a.contains(y) || b.contains(y),
    ensures
        (a + b).contains(y),
{
    if a.contains(y) {
        let k = choose|k: int| 0 <= k < a.len() && a[k] == y;
        assert((a + b)[k] == y);
    } else {
        let k = choose|k: int| 0 <= k < b.len() && b[k] == y;
        assert((a + b)[a.len() + k] == y);
    }
}

proof fn lemma_contains_remove0<A>(s: Seq<A>, y: A)
    requires
        s.contains(y),
        s.len() > 0,
        s[0] != y,
    ensures
        s.remove(0).contains(y),
{
    let k = choose|k: int| 0 <= k < s.len() && s[k] == y;
    assert(s.remove(0)[k - 1] == y);
}

proof fn lemma_prefix_push<A>(s: Seq<A>, x: A)
    ensures
        s.is_prefix_of(s.push(x)),
{
    assert(s.push(x).subrange(0, s.len() as int) =~= s);
}

proof fn lemma_prefix_trans<A>(a: Seq<A>, b: Seq<A>, c: Seq<A>)
    requires
        a.is_prefix_of(b),
        b.is_prefix_of(c),
    ensures
        a.is_prefix_of(c),
{
    assert(a =~= c.subrange(0, a.len() as int)) by {
        assert forall|k: int| 0 <= k < a.len() implies a[k] == c.subrange(0, a.len() as int)[k] by {
            assert(a[k] == b.subrange(0, a.len() as int)[k]);
            assert(b[k] == c.subrange(0, b.len() as int)[k]);
        }
    }
}

/// A wake handle bound to exactly one task. In a threaded scheduler the
/// handle would also hold the shared ready queue and the thread to unpark;
/// here both are reached through the scheduler value itself, so the handle
/// carries the task id alone and is cheap to copy.
#[derive(Clone, Copy)]
pub struct MyWaker {
    task_id: usize,
}

/// The scheduler. `tasks` is the task table (id to resident computation),
/// `ready` the FIFO queue of ids awaiting a drive, `armed` the ids whose
/// wake handles have been handed to an external wait (a timer source, the
/// reactor) and are still owed a firing, and `completed` the record, in
/// completion order, of ids driven to `Done`.
pub struct Executor<T: Drivable> {
    tasks: Vec<(usize, T)>,
    ready: Vec<usize>,
    armed: Vec<usize>,
    completed: Vec<usize>,
    next_id: usize,
}

impl MyWaker {
    /// The id of the task this handle is bound to.
    pub closed spec fn id(&self) -> usize {
        self.task_id
    }

    /// Fire the handle: append the bound id to the scheduler's ready queue and
    /// unpark the scheduler (unparking a running scheduler is a harmless
    /// no-op, and here a parked one resumes by draining the queue). Firing
    /// never fails, whatever the id names: a stale id is dropped when
    /// dequeued.
    pub fn wake<T: Drivable>(&self, ex: &mut Executor<T>)
        requires
            old(ex).wf(),
        ensures
            final(ex).wf(),
            final(ex).ready_ids() == old(ex).ready_ids().push(self.id()),
            final(ex).tasks_seq() == old(ex).tasks_seq(),
            final(ex).armed_ids() == old(ex).armed_ids(),
            final(ex).completed_ids() == old(ex).completed_ids(),
            final(ex).next_task_id() == old(ex).next_task_id(),
    {
        let ghost pre = *ex;
        ex.ready.push(self.task_id);
        proof {
            assert forall|i: int| 0 <= i < ex.tasks@.len() implies ex.ready@.contains(
                (#[trigger] ex.tasks@[i]).0,
            ) || ex.armed@.contains(ex.tasks@[i].0) by {
                if pre.ready@.contains(pre.tasks@[i].0) {
                    lemma_contains_push(pre.ready@, self.task_id, pre.tasks@[i].0);
                }
            }
        }
    }
}

impl<T: Drivable> Executor<T> {
    /// The task table, as a sequence of (id, computation) pairs.
    pub closed spec fn tasks_seq(&self) -> Seq<(usize, T)> {
        self.tasks@
    }

    /// The ids of the live tasks.
    pub open spec fn task_ids(&self) -> Seq<usize> {
        ids_of(self.tasks_seq())
    }

    /// The FIFO ready queue.
    pub closed spec fn ready_ids(&self) -> Seq<usize> {
        self.ready@
    }

    /// Ids whose wake handles an external wait still owes a firing.
    pub closed spec fn armed_ids(&self) -> Seq<usize> {
        self.armed@
    }

    /// Ids of tasks driven to completion, in completion order.
    pub closed spec fn completed_ids(&self) -> Seq<usize> {
        self.completed@
    }

    /// The next fresh task id.
    pub closed spec fn next_task_id(&self) -> usize {
        self.next_id
    }

    /// Outstanding work in the task table.
    pub open spec fn work(&self) -> nat {
        table_work(self.tasks_seq())
    }

    /// The scheduler's invariant: table ids are distinct and below the fresh
    /// id; resident computations are well-formed and unresolved; every
    /// resident id is reachable again, through the ready queue or through an
    /// armed wake handle; completed ids are distinct, below the fresh id and
    /// no longer resident.
    pub closed spec fn wf(&self) -> bool {
        &&& forall|i: int, j: int|
            0 <= i < j < self.tasks@.len() ==> (#[trigger] self.tasks@[i]).0 != (
            #[trigger] self.tasks@[j]).0
        &&& forall|i: int| 0 <= i < self.tasks@.len() ==> (#[trigger] self.tasks@[i]).0 < self.next_id
        &&& forall|i: int|
            0 <= i < self.tasks@.len() ==> (#[trigger] self.tasks@[i]).1.wf()
                && !self.tasks@[i].1.resolved()
        &&& forall|i: int|
            0 <= i < self.tasks@.len() ==> self.ready@.contains((#[trigger] self.tasks@[i]).0)
                || self.armed@.contains(self.tasks@[i].0)
        &&& forall|i: int, j: int|
            #![trigger self.completed@[i], self.completed@[j]]
            0 <= i < j < self.completed@.len() ==> self.completed@[i] != self.completed@[j]
        &&& forall|i: int|
            0 <= i < self.completed@.len() ==> #[trigger] self.completed@[i] < self.next_id
                && !self.task_ids().contains(self.completed@[i])
    }

    pub fn new() -> (ex: Executor<T>)
        ensures
            ex.wf(),
            ex.tasks_seq() == Seq::<(usize, T)>::empty(),
            ex.ready_ids() == Seq::<usize>::empty(),
            ex.armed_ids() == Seq::<usize>::empty(),
            ex.completed_ids() == Seq::<usize>::empty(),
            ex.next_task_id() == 0,
    {
        Executor {
            tasks: Vec::new(),
            ready: Vec::new(),
            armed: Vec::new(),
            completed: Vec::new(),
            next_id: 0,
        }
    }

    /// Mint the wake handle for a task id.
    pub fn from_id(&self, id: usize) -> (w: MyWaker)
        ensures
            w.id() == id,
    {
        MyWaker { task_id: id }
    }

    /// Assign a fresh, monotonically increasing task id, insert the
    /// computation into the task table, and append the id to the ready queue.
    pub fn schedule(&mut self, task: T)
        requires
            old(self).wf(),
            task.wf(),
            !task.resolved(),
            old(self).next_task_id() < usize::MAX,
        ensures
            final(self).wf(),
            final(self).tasks_seq() == old(self).tasks_seq().push(
                (old(self).next_task_id(), task),
            ),
            final(self).ready_ids() == old(self).ready_ids().push(old(self).next_task_id()),
            final(self).armed_ids() == old(self).armed_ids(),
            final(self).completed_ids() == old(self).completed_ids(),
            final(self).next_task_id() == old(self).next_task_id() + 1,
    {
        let ghost pre = *self;
        let id = self.next_id;
        self.tasks.push((id, task));
        self.ready.push(id);
        self.next_id = self.next_id + 1;
        proof {
            let s = self.tasks@;
            assert forall|i: int| 0 <= i < s.len() implies self.ready@.contains(
                (#[trigger] s[i]).0,
            ) || self.armed@.contains(s[i].0) by {
                if i < pre.tasks@.len() {
                    assert(s[i] == pre.tasks@[i]);
                    if pre.ready@.contains(pre.tasks@[i].0) {
                        lemma_contains_push(pre.ready@, id, pre.tasks@[i].0);
                    }
                } else {
                    assert(self.ready@[pre.ready@.len() as int] == id);
                }
            }
            assert forall|i: int|
                0 <= i < self.completed@.len() implies #[trigger] self.completed@[i] < self.next_id
                && !self.task_ids().contains(self.completed@[i]) by {
                if self.task_ids().contains(pre.completed@[i]) {
                    let k = choose|k: int|
                        0 <= k < self.task_ids().len() && self.task_ids()[k] == pre.completed@[i];
                    if k < pre.tasks@.len() {
                        assert(pre.task_ids()[k] == pre.completed@[i]);
                    }
                }
            }
        }
    }

    fn find_task(&self, id: usize) -> (r: Option<usize>)
        ensures
            match r {
                Some(i) => i < self.tasks_seq().len() && self.tasks_seq()[i as int].0 == id,
                None => !self.task_ids().contains(id),
            },
    {
        let n = self.tasks.len();
        let mut i: usize = 0;
        while i < n
            invariant
                n == self.tasks@.len(),
                i <= n,
                forall|k: int| 0 <= k < i ==> (#[trigger] self.tasks@[k]).0 != id,
            decreases n - i,
        {
            if self.tasks[i].0 == id {
                return Some(i);
            }
            i = i + 1;
        }
        proof {
            if self.task_ids().contains(id) {
                let k = choose|k: int|
                    0 <= k < self.task_ids().len() && self.task_ids()[k] == id;
                assert(self.tasks@[k].0 == id);
            }
        }
        None
    }

    /// Dequeue the front id and handle it. A live id's computation takes
    /// exactly one resumption step: on `Done` it is removed from the table
    /// and its id recorded as completed; on `Pending` it stays resident and
    /// its wake handle counts as armed. An id that names no live task — a
    /// duplicate wake, or a wake for a task already completed — is dropped
    /// silently and changes nothing else.
    pub fn step(&mut self)
        requires
            old(self).wf(),
            old(self).ready_ids().len() > 0,
        ensures
            final(self).wf(),
            final(self).ready_ids() == old(self).ready_ids().remove(0),
            final(self).next_task_id() == old(self).next_task_id(),
            !old(self).task_ids().contains(old(self).ready_ids()[0]) ==> final(self).tasks_seq()
                == old(self).tasks_seq() && final(self).armed_ids() == old(self).armed_ids()
                && final(self).completed_ids() == old(self).completed_ids(),
            final(self).work() <= old(self).work(),
            final(self).task_ids().len() <= old(self).task_ids().len(),
            final(self).completed_ids().len() + final(self).task_ids().len() == old(
                self,
            ).completed_ids().len() + old(self).task_ids().len(),
            old(self).completed_ids().is_prefix_of(final(self).completed_ids()),
            forall|id: usize| #[trigger]
                final(self).task_ids().contains(id) ==> old(self).task_ids().contains(id),
            final(self).armed_ids().len() >= old(self).armed_ids().len(),
            (final(self).armed_ids().len() > old(self).armed_ids().len()
                || final(self).task_ids().len() < old(self).task_ids().len())
                ==> final(self).work() < old(self).work(),
            final(self).completed_ids().to_set() == old(self).completed_ids().to_set()
                + old(self).task_ids().to_set().difference(final(self).task_ids().to_set()),
    {
        let ghost pre = *self;
        let id = self.ready.remove(0);
        let found = self.find_task(id);
        match found {
            None => {
                proof {
                    assert forall|i: int| 0 <= i < self.tasks@.len() implies self.ready@.contains(
                        (#[trigger] self.tasks@[i]).0,
                    ) || self.armed@.contains(self.tasks@[i].0) by {
                        let tid = pre.tasks@[i].0;
                        assert(pre.task_ids()[i] == tid);
                        if pre.ready@.contains(tid) {
                            lemma_contains_remove0(pre.ready@, tid);
                        }
                    }
                    assert(pre.completed@.is_prefix_of(pre.completed@)) by {
                        assert(pre.completed@ =~= pre.completed@.subrange(
                            0,
                            pre.completed@.len() as int,
                        ));
                    }
                    assert(self.completed_ids().to_set() =~= pre.completed_ids().to_set()
                        + pre.task_ids().to_set().difference(self.task_ids().to_set()));
                }
            },
            Some(i) => {
                let pair = self.tasks.remove(i);
                let tid = pair.0;
                let mut t = pair.1;
                let ghost t0 = t;
                proof {
                    lemma_table_work_remove::<T>(pre.tasks@, i as int);
                    pre.tasks@.remove_ensures(i as int);
                    assert(pre.task_ids()[i as int] == tid);
                }
                let r = t.drive();
                match r {
                    DriveResult::Done => {
                        self.completed.push(tid);
                        proof {
                            let s1 = self.tasks@;
                            let gi = i as int;
                            // index mapping from the shrunken table back into the old one
                            assert forall|a: int| 0 <= a < s1.len() implies (#[trigger] s1[a])
                                == pre.tasks@[if a < gi { a } else { a + 1 }] by {}
                            // every surviving id survives with its witness entry
                            assert forall|a: int| 0 <= a < s1.len() implies self.ready@.contains(
                                (#[trigger] s1[a]).0,
                            ) || self.armed@.contains(s1[a].0) by {
                                let a0: int = if a < gi { a } else { a + 1 };
                                let tid2 = pre.tasks@[a0].0;
                                assert(tid2 != tid);
                                if pre.ready@.contains(tid2) {
                                    lemma_contains_remove0(pre.ready@, tid2);
                                }
                            }
                            // a surviving id was a live id before
                            assert forall|c: usize| #[trigger]
                                self.task_ids().contains(c) implies pre.task_ids().contains(c) by {
                                let k = choose|k: int|
                                    0 <= k < self.task_ids().len() && self.task_ids()[k] == c;
                                let k0: int = if k < gi { k } else { k + 1 };
                                assert(pre.task_ids()[k0] == c);
                            }
                            // the completed id is no longer live
                            assert(!self.task_ids().contains(tid)) by {
                                if self.task_ids().contains(tid) {
                                    let k = choose|k: int|
                                        0 <= k < self.task_ids().len() && self.task_ids()[k] == tid;
                                    let k0: int = if k < gi { k } else { k + 1 };
                                    assert(pre.tasks@[k0].0 == tid);
                                }
                            }
                            // old completed ids stay distinct from the new one
                            assert forall|a: int|
                                0 <= a < pre.completed@.len() implies pre.completed@[a] != tid by {
                                assert(!pre.task_ids().contains(pre.completed@[a]));
                                assert(pre.task_ids().contains(tid));
                            }
                            lemma_prefix_push(pre.completed@, tid);
                            // completion-set accounting: exactly tid moved over
                            assert forall|c: usize|
                                self.completed@.to_set().contains(c) == (
                                pre.completed@.to_set() + pre.task_ids().to_set().difference(
                                    self.task_ids().to_set(),
                                )).contains(c) by {
                                if self.completed@.contains(c) {
                                    lemma_contains_push_inv(pre.completed@, tid, c);
                                }
                                if c == tid {
                                    lemma_contains_push(pre.completed@, tid, c);
                                }
                                if pre.completed@.contains(c) {
                                    lemma_contains_push(pre.completed@, tid, c);
                                }
                                if pre.task_ids().contains(c) && !self.task_ids().contains(c) {
                                    let k = choose|k: int|
                                        0 <= k < pre.task_ids().len() && pre.task_ids()[k] == c;
                                    if k != gi {
                                        let k1: int = if k < gi { k } else { k - 1 };
                                        assert(self.task_ids()[k1] == c);
                                    }
                                    assert(c == tid);
                                    lemma_contains_push(pre.completed@, tid, c);
                                }
                            }
                            assert(self.completed@.to_set() =~= pre.completed@.to_set()
                                + pre.task_ids().to_set().difference(self.task_ids().to_set()));
                        }
                    },
                    DriveResult::Pending => {
                        self.tasks.push((tid, t));
                        self.armed.push(tid);
                        proof {
                            lemma_table_work_push::<T>(pre.tasks@.remove(i as int), (tid, t));
                            let s1 = self.tasks@;
                            let gi = i as int;
                            let n1 = s1.len() - 1;
                            // index mapping: all but the last entry come from the old table
                            assert forall|a: int| 0 <= a < n1 implies (#[trigger] s1[a])
                                == pre.tasks@[if a < gi { a } else { a + 1 }] by {}
                            assert(s1[n1] == (tid, t));
                            // the driven id keeps its armed witness; others keep theirs
                            assert forall|a: int| 0 <= a < s1.len() implies self.ready@.contains(
                                (#[trigger] s1[a]).0,
                            ) || self.armed@.contains(s1[a].0) by {
                                if a < n1 {
                                    let a0: int = if a < gi { a } else { a + 1 };
                                    let tid2 = pre.tasks@[a0].0;
                                    assert(tid2 != tid);
                                    if pre.ready@.contains(tid2) {
                                        lemma_contains_remove0(pre.ready@, tid2);
                                    } else {
                                        lemma_contains_push(pre.armed@, tid, tid2);
                                    }
                                } else {
                                    assert(self.armed@[pre.armed@.len() as int] == tid);
                                }
                            }
                            // the table holds the same ids as before
                            assert forall|c: usize| #[trigger]
                                self.task_ids().contains(c) implies pre.task_ids().contains(c) by {
                                let k = choose|k: int|
                                    0 <= k < self.task_ids().len() && self.task_ids()[k] == c;
                                if k < n1 {
                                    let k0: int = if k < gi { k } else { k + 1 };
                                    assert(pre.task_ids()[k0] == c);
                                } else {
                                    assert(pre.task_ids()[gi] == c);
                                }
                            }
                            assert forall|c: usize| #[trigger]
                                pre.task_ids().contains(c) implies self.task_ids().contains(c) by {
                                let k = choose|k: int|
                                    0 <= k < pre.task_ids().len() && pre.task_ids()[k] == c;
                                if k == gi {
                                    assert(self.task_ids()[n1] == c);
                                } else {
                                    let k1: int = if k < gi { k } else { k - 1 };
                                    assert(self.task_ids()[k1] == c);
                                }
                            }
                            // distinctness of the reshuffled table
                            assert forall|a: int, b: int| 0 <= a < b < s1.len() implies (s1[a]).0
                                != (s1[b]).0 by {
                                if b < n1 {
                                    let a0: int = if a < gi { a } else { a + 1 };
                                    let b0: int = if b < gi { b } else { b + 1 };
                                    assert(s1[a] == pre.tasks@[a0]);
                                    assert(s1[b] == pre.tasks@[b0]);
                                } else {
                                    let a0: int = if a < gi { a } else { a + 1 };
                                    assert(s1[a] == pre.tasks@[a0]);
                                    assert(pre.tasks@[a0].0 != pre.tasks@[gi].0);
                                }
                            }
                            // completed ids stay non-resident
                            assert forall|a: int|
                                0 <= a < self.completed@.len() implies !self.task_ids().contains(
                                    #[trigger] self.completed@[a],
                                ) by {
                                if self.task_ids().contains(self.completed@[a]) {
                                    assert(pre.task_ids().contains(pre.completed@[a]));
                                }
                            }
                            assert(pre.completed@.is_prefix_of(self.completed@)) by {
                                assert(pre.completed@ =~= pre.completed@.subrange(
                                    0,
                                    pre.completed@.len() as int,
                                ));
                            }
                            // no id completed: the accounting difference is empty
                            assert(pre.task_ids().to_set().difference(self.task_ids().to_set())
                                =~= Set::<usize>::empty());
                            assert(self.completed@.to_set() =~= pre.completed@.to_set()
                                + pre.task_ids().to_set().difference(self.task_ids().to_set()));
                        }
                    },
                }
            },
        }
    }

    /// Drain the ready queue completely, driving each dequeued id once.
    /// Wakes that fired before the drain are all observed by it.
    pub fn drain_ready(&mut self)
        requires
            old(self).wf(),
        ensures
            final(self).wf(),
            final(self).ready_ids().len() == 0,
            final(self).next_task_id() == old(self).next_task_id(),
            final(self).work() <= old(self).work(),
            final(self).task_ids().len() <= old(self).task_ids().len(),
            final(self).completed_ids().len() + final(self).task_ids().len() == old(
                self,
            ).completed_ids().len() + old(self).task_ids().len(),
            old(self).completed_ids().is_prefix_of(final(self).completed_ids()),
            forall|id: usize| #[trigger]
                final(self).task_ids().contains(id) ==> old(self).task_ids().contains(id),
            final(self).armed_ids().len() >= old(self).armed_ids().len(),
            (final(self).armed_ids().len() > old(self).armed_ids().len()
                || final(self).task_ids().len() < old(self).task_ids().len())
                ==> final(self).work() < old(self).work(),
            final(self).completed_ids().to_set() == old(self).completed_ids().to_set()
                + old(self).task_ids().to_set().difference(final(self).task_ids().to_set()),
    {
        let ghost pre = *self;
        proof {
            assert(pre.completed_ids().is_prefix_of(pre.completed_ids())) by {
                assert(pre.completed_ids() =~= pre.completed_ids().subrange(
                    0,
                    pre.completed_ids().len() as int,
                ));
            }
            assert(pre.completed_ids().to_set() =~= pre.completed_ids().to_set()
                + pre.task_ids().to_set().difference(pre.task_ids().to_set()));
        }
        while self.ready.len() > 0
            invariant
                self.wf(),
                self.next_task_id() == pre.next_task_id(),
                self.work() <= pre.work(),
                self.task_ids().len() <= pre.task_ids().len(),
                self.completed_ids().len() + self.task_ids().len() == pre.completed_ids().len()
                    + pre.task_ids().len(),
                pre.completed_ids().is_prefix_of(self.completed_ids()),
                forall|id: usize| #[trigger]
                    self.task_ids().contains(id) ==> pre.task_ids().contains(id),
                self.armed_ids().len() >= pre.armed_ids().len(),
                (self.armed_ids().len() > pre.armed_ids().len() || self.task_ids().len()
                    < pre.task_ids().len()) ==> self.work() < pre.work(),
                self.completed_ids().to_set() == pre.completed_ids().to_set()
                    + pre.task_ids().to_set().difference(self.task_ids().to_set()),
            decreases self.ready@.len(),
        {
            let ghost mid = *self;
            self.step();
            proof {
                lemma_prefix_trans(
                    pre.completed_ids(),
                    mid.completed_ids(),
                    self.completed_ids(),
                );
                // compose the two accounting steps: with ids only shrinking,
                // what left between the start and the last step plus what left
                // in this step is what left since the start
                assert(pre.task_ids().to_set().difference(mid.task_ids().to_set())
                    + mid.task_ids().to_set().difference(self.task_ids().to_set())
                    =~= pre.task_ids().to_set().difference(self.task_ids().to_set()));
                assert(self.completed_ids().to_set() =~= pre.completed_ids().to_set()
                    + pre.task_ids().to_set().difference(self.task_ids().to_set()));
            }
        }
    }

    /// The park point of the scheduler: while it is blocked, the wake handles
    /// that external waits owe all fire, each appending its id to the ready
    /// queue and unparking the scheduler. (A real scheduler may be woken
    /// after any non-empty subset; modelling the full set keeps every owed
    /// wake observable in the next drain.)
    pub fn fire_armed(&mut self)
        requires
            old(self).wf(),
        ensures
            final(self).wf(),
            final(self).ready_ids() == old(self).ready_ids() + old(self).armed_ids(),
            final(self).armed_ids().len() == 0,
            final(self).tasks_seq() == old(self).tasks_seq(),
            final(self).completed_ids() == old(self).completed_ids(),
            final(self).next_task_id() == old(self).next_task_id(),
    {
        let ghost pre = *self;
        let mut moved: Vec<usize> = Vec::new();
        core::mem::swap(&mut moved, &mut self.armed);
        self.ready.append(&mut moved);
        proof {
            assert forall|i: int| 0 <= i < self.tasks@.len() implies self.ready@.contains(
                (#[trigger] self.tasks@[i]).0,
            ) || self.armed@.contains(self.tasks@[i].0) by {
                lemma_contains_concat(pre.ready@, pre.armed@, pre.tasks@[i].0);
            }
        }
    }

    /// Run until every scheduled computation has resolved: repeatedly drain
    /// the ready queue, and while live tasks remain park until the wakes they
    /// are waiting on fire. On return the task table is empty, and the ids of
    /// all computations that were live at the call stand recorded as
    /// completed, each exactly once.
    pub fn block(&mut self)
        requires
            old(self).wf(),
        ensures
            final(self).wf(),
            final(self).task_ids().len() == 0,
            final(self).ready_ids().len() == 0,
            final(self).next_task_id() == old(self).next_task_id(),
            old(self).completed_ids().is_prefix_of(final(self).completed_ids()),
            final(self).completed_ids().to_set() == old(self).completed_ids().to_set()
                + old(self).task_ids().to_set(),
    {
        let ghost pre = *self;
        proof {
            assert(pre.completed_ids().is_prefix_of(pre.completed_ids())) by {
                assert(pre.completed_ids() =~= pre.completed_ids().subrange(
                    0,
                    pre.completed_ids().len() as int,
                ));
            }
            assert(pre.completed_ids().to_set() =~= pre.completed_ids().to_set()
                + pre.task_ids().to_set().difference(pre.task_ids().to_set()));
        }
        let mut drained = false;
        while !drained || self.tasks.len() > 0
            invariant
                self.wf(),
                self.next_task_id() == pre.next_task_id(),
                drained ==> self.ready_ids().len() == 0,
                self.completed_ids().len() + self.task_ids().len() == pre.completed_ids().len()
                    + pre.task_ids().len(),
                pre.completed_ids().is_prefix_of(self.completed_ids()),
                forall|id: usize| #[trigger]
                    self.task_ids().contains(id) ==> pre.task_ids().contains(id),
                self.completed_ids().to_set() == pre.completed_ids().to_set()
                    + pre.task_ids().to_set().difference(self.task_ids().to_set()),
            decreases self.work() + (if drained {
                0int
            } else {
                1int
            }),
        {
            let ghost mid = *self;
            self.fire_armed();
            let ghost fired = *self;
            self.drain_ready();
            drained = true;
            proof {
                lemma_prefix_trans(pre.completed_ids(), mid.completed_ids(), self.completed_ids());
                assert(pre.task_ids().to_set().difference(mid.task_ids().to_set())
                    + mid.task_ids().to_set().difference(self.task_ids().to_set())
                    =~= pre.task_ids().to_set().difference(self.task_ids().to_set()));
                assert(self.completed_ids().to_set() =~= pre.completed_ids().to_set()
                    + pre.task_ids().to_set().difference(self.task_ids().to_set()));
                // termination: a drain that leaves live tasks armed at least
                // one new wake, and an armed wake means its computation took
                // a strict step
                if self.tasks@.len() > 0 {
                    assert(self.ready@.contains(self.tasks@[0].0) || self.armed@.contains(
                        self.tasks@[0].0,
                    ));
                    assert(self.armed_ids().len() > 0);
                    assert(self.work() < fired.work());
                } else if mid.tasks@.len() > 0 {
                    assert(self.task_ids().len() < fired.task_ids().len());
                    assert(self.work() < fired.work());
                }
            }
        }
        proof {
            assert(self.task_ids().to_set() =~= Set::<usize>::empty());
            assert(self.completed_ids().to_set() =~= pre.completed_ids().to_set()
                + pre.task_ids().to_set());
        }
    }

    /// Number of live tasks in the table.
    pub fn task_count(&self) -> (n: usize)
        ensures
            n == self.task_ids().len(),
    {
        self.tasks.len()
    }

    /// The ids of the completed tasks, in completion order.
    pub fn completed(&self) -> (v: Vec<usize>)
        ensures
            v@ == self.completed_ids(),
    {
        let mut v: Vec<usize> = Vec::new();
        let mut i: usize = 0;
        let n = self.completed.len();
        while i < n
            invariant
                n == self.completed@.len(),
                i <= n,
                v@ == self.completed@.subrange(0, i as int),
            decreases n - i,
        {
            v.push(self.completed[i]);
            assert(v@ =~= self.completed@.subrange(0, i + 1));
            i = i + 1;
        }
        assert(v@ =~= self.completed@);
        v
    }
}

/// Law: each task completes exactly once. The completion record never holds
/// an id twice, and never an id that is still resident in the task table.
pub proof fn lemma_completed_once<T: Drivable>(ex: &Executor<T>)
    requires
        ex.wf(),
    ensures
        forall|i: int, j: int|
            #![trigger ex.completed_ids()[i], ex.completed_ids()[j]]
            0 <= i < j < ex.completed_ids().len() ==> ex.completed_ids()[i]
                != ex.completed_ids()[j],
        forall|i: int|
            0 <= i < ex.completed_ids().len() ==> !ex.task_ids().contains(
                #[trigger] ex.completed_ids()[i],
            ),
{
}

} // verus!
