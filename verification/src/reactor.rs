//! The readiness multiplexer: interests registered under tokens, the poll
//! call that turns observed OS readiness into an event batch, and the
//! dispatch that turns a batch into wake invocations.
//!
//! The blocking OS call itself lives outside the library; what it observes —
//! which handles are ready with which event kinds — enters here as a value,
//! and everything from that observation to the wake handles is verified.

use vstd::prelude::*;
use crate::task::Drivable;
use crate::executor::Executor;

verus! {

/// One readiness fact as the OS reports it: an I/O handle and the event
/// kinds currently ready on it.
#[derive(Clone, Copy, PartialEq, Eq, Structural, Debug)]
pub struct Readiness {
    pub fd: i32,
    pub kinds: i32,
}

/// One entry of an event batch: the token under which the interest was
/// registered, and the ready kinds overlapping the interest mask.
#[derive(Clone, Copy, PartialEq, Eq, Structural, Debug)]
pub struct Event {
    pub token: usize,
    pub kinds: i32,
}

/// One registered interest: an I/O handle, the caller's token for it, and the
/// event kinds asked for.
#[derive(Clone, Copy, PartialEq, Eq, Structural, Debug)]
pub struct Registration {
    pub fd: i32,
    pub token: usize,
    pub interests: i32,
}

/// Why a registration was refused.
#[derive(Clone, Copy, PartialEq, Eq, Structural, Debug)]
pub enum RegisterError {
    /// The handle already carries a live interest; the OS refuses a second
    /// registration for the same handle.
    AlreadyRegistered,
}

/// Whether some live interest is registered for the handle.
pub open spec fn fd_registered(regs: Seq<Registration>, fd: i32) -> bool {
    exists|i: int| 0 <= i < regs.len() && regs[i].fd == fd
}

/// Registered handles are pairwise distinct.
pub open spec fn fds_distinct(regs: Seq<Registration>) -> bool {
    forall|i: int, j: int|
        0 <= i < j < regs.len() ==> (#[trigger] regs[i]).fd != (#[trigger] regs[j]).fd
}

/// The readiness entry that applies to a registration, if any: the first
/// reported entry for its handle whose kinds overlap the interest mask.
pub open spec fn ready_match(r: Registration, rd: Seq<Readiness>) -> Option<Readiness>
    decreases rd.len(),
{
    if rd.len() == 0 {
        None
    } else if rd[0].fd == r.fd && rd[0].kinds & r.interests != 0 {
        Some(rd[0])
    } else {
        ready_match(r, rd.drop_first())
    }
}

/// Whether the reported readiness satisfies the registration.
pub open spec fn is_ready(r: Registration, rd: Seq<Readiness>) -> bool {
    ready_match(r, rd) is Some
}

/// The batch entry a satisfied registration produces.
pub open spec fn event_of(r: Registration, rd: Seq<Readiness>) -> Event
    recommends
        is_ready(r, rd),
{
    Event { token: r.token, kinds: ready_match(r, rd).unwrap().kinds & r.interests }
}

/// The event batch one poll call delivers: satisfied interests in
/// registration order, truncated to the batch capacity.
pub open spec fn delivered(regs: Seq<Registration>, rd: Seq<Readiness>, max: nat) -> Seq<Event>
    decreases regs.len(),
{
    if regs.len() == 0 || max == 0 {
        Seq::empty()
    } else if is_ready(regs[0], rd) {
        seq![event_of(regs[0], rd)] + delivered(regs.drop_first(), rd, (max - 1) as nat)
    } else {
        delivered(regs.drop_first(), rd, max)
    }
}

/// The interests still live after that poll call: delivering an event
/// disarms its interest (a wake handle fires once), undelivered interests
/// stay registered.
pub open spec fn remaining(regs: Seq<Registration>, rd: Seq<Readiness>, max: nat) -> Seq<
    Registration,
>
    decreases regs.len(),
{
    if regs.len() == 0 {
        Seq::empty()
    } else if max == 0 {
        regs
    } else if is_ready(regs[0], rd) {
        remaining(regs.drop_first(), rd, (max - 1) as nat)
    } else {
        seq![regs[0]] + remaining(regs.drop_first(), rd, max)
    }
}

/// The registration half of the multiplexer.
pub struct Registry {
    regs: Vec<Registration>,
}

/// The event queue: owns the registration table and answers poll calls.
pub struct Poll {
    registry: Registry,
}

impl Registry {
    /// The live interests, in registration order.
    pub closed spec fn registrations(&self) -> Seq<Registration> {
        self.regs@
    }

    pub open spec fn wf(&self) -> bool {
        fds_distinct(self.registrations())
    }

    /// Register interest for an event notification: associate the handle with
    /// the token and the requested event kinds. A handle with a live interest
    /// is refused, as the OS refuses a duplicate registration.
    pub fn register(&mut self, source_fd: i32, token: usize, interests: i32) -> (r: Result<
        (),
        RegisterError,
    >)
        requires
            old(self).wf(),
        ensures
            final(self).wf(),
            r is Ok <==> !fd_registered(old(self).registrations(), source_fd),
            r is Ok ==> final(self).registrations() == old(self).registrations().push(
                Registration { fd: source_fd, token, interests },
            ),
            r is Err ==> final(self).registrations() == old(self).registrations()
                && r == Result::<(), RegisterError>::Err(RegisterError::AlreadyRegistered),
    {
        let ghost regs0 = self.regs@;
        let n = self.regs.len();
        let mut i: usize = 0;
        while i < n
            invariant
                self.regs@ == regs0,
                fds_distinct(regs0),
                n == self.regs@.len(),
                i <= n,
                forall|k: int| 0 <= k < i ==> (#[trigger] self.regs@[k]).fd != source_fd,
            decreases n - i,
        {
            if self.regs[i].fd == source_fd {
                proof {
                    assert(self.regs@[i as int].fd == source_fd);
                    assert(fd_registered(self.regs@, source_fd));
                }
                return Err(RegisterError::AlreadyRegistered);
            }
            i = i + 1;
        }
        let ghost pre = self.regs@;
        self.regs.push(Registration { fd: source_fd, token, interests });
        proof {
            assert forall|a: int, b: int|
                0 <= a < b < self.regs@.len() implies (#[trigger] self.regs@[a]).fd != (
            #[trigger] self.regs@[b]).fd by {
                if b < pre.len() {
                    assert(self.regs@[a] == pre[a]);
                    assert(self.regs@[b] == pre[b]);
                } else {
                    assert(self.regs@[a] == pre[a]);
                }
            }
        }
        Ok(())
    }
}

/// Find the first reported readiness entry satisfying a registration.
fn find_ready(readiness: &Vec<Readiness>, r: Registration) -> (res: Option<Readiness>)
    ensures
        res == ready_match(r, readiness@),
{
    let n = readiness.len();
    let mut i: usize = 0;
    proof {
        assert(readiness@.skip(0) =~= readiness@);
    }
    while i < n
        invariant
            n == readiness@.len(),
            i <= n,
            ready_match(r, readiness@) == ready_match(r, readiness@.skip(i as int)),
        decreases n - i,
    {
        let e = readiness[i];
        proof {
            assert(readiness@.skip(i as int)[0] == e);
            assert(readiness@.skip(i as int).drop_first() =~= readiness@.skip(i + 1));
        }
        if e.fd == r.fd && (e.kinds & r.interests) != 0 {
            return Some(e);
        }
        i = i + 1;
    }
    proof {
        assert(readiness@.skip(n as int) =~= Seq::<Readiness>::empty());
    }
    None
}

impl Poll {
    /// The live interests, in registration order.
    pub closed spec fn registrations(&self) -> Seq<Registration> {
        self.registry.registrations()
    }

    pub open spec fn wf(&self) -> bool {
        fds_distinct(self.registrations())
    }

    /// Create a new event queue with no registered interests.
    pub fn new() -> (p: Poll)
        ensures
            p.wf(),
            p.registrations() == Seq::<Registration>::empty(),
    {
        Poll { registry: Registry { regs: Vec::new() } }
    }

    /// The registration half, for inspection.
    pub fn registry(&self) -> (r: &Registry)
        ensures
            r.registrations() == self.registrations(),
    {
        &self.registry
    }

    /// Register interest through the owned registry.
    pub fn register(&mut self, source_fd: i32, token: usize, interests: i32) -> (r: Result<
        (),
        RegisterError,
    >)
        requires
            old(self).wf(),
        ensures
            final(self).wf(),
            r is Ok <==> !fd_registered(old(self).registrations(), source_fd),
            r is Ok ==> final(self).registrations() == old(self).registrations().push(
                Registration { fd: source_fd, token, interests },
            ),
            r is Err ==> final(self).registrations() == old(self).registrations(),
    {
        self.registry.register(source_fd, token, interests)
    }

    /// One poll call. The OS blocked until `readiness` was observed (or a
    /// timeout elapsed, leaving `readiness` empty); this turns that
    /// observation into the event batch: satisfied interests in registration
    /// order, truncated to `max_events`, each delivered entry disarming its
    /// interest. With zero registered interests the batch is empty whatever
    /// the timeout was — waiting one out is not an error.
    pub fn poll(
        &mut self,
        events: &mut Vec<Event>,
        max_events: usize,
        readiness: &Vec<Readiness>,
        _timeout_ms: Option<i32>,
    )
        requires
            old(self).wf(),
        ensures
            final(self).wf(),
            final(events)@ == delivered(old(self).registrations(), readiness@, max_events as nat),
            final(self).registrations() == remaining(
                old(self).registrations(),
                readiness@,
                max_events as nat,
            ),
            old(self).registrations().len() == 0 ==> final(events)@.len() == 0,
    {
        let ghost regs0 = self.registry.regs@;
        events.clear();
        let mut kept: Vec<Registration> = Vec::new();
        let n = self.registry.regs.len();
        let mut i: usize = 0;
        proof {
            assert(regs0.skip(0) =~= regs0);
            assert(Seq::<Event>::empty() + delivered(regs0, readiness@, max_events as nat)
                =~= delivered(regs0, readiness@, max_events as nat));
            assert(Seq::<Registration>::empty() + remaining(
                regs0,
                readiness@,
                max_events as nat,
            ) =~= remaining(regs0, readiness@, max_events as nat));
        }
        while i < n
            invariant
                n == self.registry.regs@.len(),
                self.registry.regs@ == regs0,
                i <= n,
                events@.len() <= max_events,
                delivered(regs0, readiness@, max_events as nat) == events@ + delivered(
                    regs0.skip(i as int),
                    readiness@,
                    (max_events - events@.len()) as nat,
                ),
                remaining(regs0, readiness@, max_events as nat) == kept@ + remaining(
                    regs0.skip(i as int),
                    readiness@,
                    (max_events - events@.len()) as nat,
                ),
            decreases n - i,
        {
            let r = self.registry.regs[i];
            let ghost tail = regs0.skip(i as int);
            proof {
                assert(tail[0] == r);
                assert(tail.drop_first() =~= regs0.skip(i + 1));
            }
            let found = find_ready(readiness, r);
            let ghost evs = events@;
            let ghost kp = kept@;
            let ghost budget = (max_events - events@.len()) as nat;
            if events.len() < max_events {
                match found {
                    Some(rdy) => {
                        events.push(
                            Event { token: r.token, kinds: rdy.kinds & r.interests },
                        );
                        proof {
                            assert(event_of(r, readiness@) == Event {
                                token: r.token,
                                kinds: rdy.kinds & r.interests,
                            });
                            assert(evs + (seq![event_of(r, readiness@)] + delivered(
                                regs0.skip(i + 1),
                                readiness@,
                                (budget - 1) as nat,
                            )) =~= events@ + delivered(
                                regs0.skip(i + 1),
                                readiness@,
                                (budget - 1) as nat,
                            ));
                        }
                    },
                    None => {
                        kept.push(r);
                        proof {
                            assert(kp + (seq![r] + remaining(
                                regs0.skip(i + 1),
                                readiness@,
                                budget,
                            )) =~= kept@ + remaining(regs0.skip(i + 1), readiness@, budget));
                        }
                    },
                }
            } else {
                kept.push(r);
                proof {
                    assert(remaining(tail, readiness@, 0) == tail);
                    assert(tail =~= seq![r] + regs0.skip(i + 1));
                    assert(kp + tail =~= kept@ + regs0.skip(i + 1));
                    assert(remaining(regs0.skip(i + 1), readiness@, 0) == regs0.skip(i + 1));
                    assert(delivered(tail, readiness@, 0) =~= Seq::<Event>::empty());
                    assert(delivered(regs0.skip(i + 1), readiness@, 0) =~= Seq::<
                        Event,
                    >::empty());
                }
            }
            i = i + 1;
        }
        proof {
            assert(regs0.skip(n as int) =~= Seq::<Registration>::empty());
        }
        let mut table = kept;
        core::mem::swap(&mut table, &mut self.registry.regs);
        proof {
            lemma_remaining_fds(regs0, readiness@, max_events as nat);
            assert(events@ + Seq::<Event>::empty() =~= events@);
            assert(kept@ + Seq::<Registration>::empty() =~= kept@);
        }
    }
}

proof fn lemma_remaining_fds(regs: Seq<Registration>, rd: Seq<Readiness>, max: nat)
    requires
        fds_distinct(regs),
    ensures
        fds_distinct(remaining(regs, rd, max)),
        forall|fd: i32| #[trigger]
            fd_registered(remaining(regs, rd, max), fd) ==> fd_registered(regs, fd),
    decreases regs.len(),
{
    if regs.len() == 0 || max == 0 {
    } else {
        let rest = regs.drop_first();
        assert forall|a: int, b: int|
            0 <= a < b < rest.len() implies (#[trigger] rest[a]).fd != (#[trigger] rest[b]).fd by {
            assert(rest[a] == regs[a + 1]);
            assert(rest[b] == regs[b + 1]);
        }
        if is_ready(regs[0], rd) {
            lemma_remaining_fds(rest, rd, (max - 1) as nat);
            assert forall|fd: i32| #[trigger]
                fd_registered(remaining(regs, rd, max), fd) implies fd_registered(regs, fd) by {
                if fd_registered(rest, fd) {
                    let k = choose|k: int| 0 <= k < rest.len() && rest[k].fd == fd;
                    assert(regs[k + 1].fd == fd);
                }
            }
        } else {
            lemma_remaining_fds(rest, rd, max);
            let out = remaining(regs, rd, max);
            let sub = remaining(rest, rd, max);
            assert(out =~= seq![regs[0]] + sub);
            assert forall|fd: i32| #[trigger]
                fd_registered(out, fd) implies fd_registered(regs, fd) by {
                let k = choose|k: int| 0 <= k < out.len() && out[k].fd == fd;
                if k == 0 {
                    assert(regs[0].fd == fd);
                } else {
                    assert(sub[k - 1].fd == fd);
                    assert(fd_registered(sub, fd));
                    let k2 = choose|k2: int| 0 <= k2 < rest.len() && rest[k2].fd == fd;
                    assert(regs[k2 + 1].fd == fd);
                }
            }
            assert forall|a: int, b: int|
                0 <= a < b < out.len() implies (#[trigger] out[a]).fd != (#[trigger] out[b]).fd by {
                if a == 0 {
                    assert(out[b] == sub[b - 1]);
                    assert(fd_registered(sub, out[b].fd));
                    if regs[0].fd == out[b].fd {
                        let k = choose|k: int| 0 <= k < rest.len() && rest[k].fd == out[b].fd;
                        assert(regs[k + 1].fd == regs[0].fd);
                    }
                } else {
                    assert(out[a] == sub[a - 1]);
                    assert(out[b] == sub[b - 1]);
                }
            }
        }
    }
}

proof fn lemma_remaining_excludes_ready(regs: Seq<Registration>, rd: Seq<Readiness>, max: nat, f: i32)
    requires
        max >= regs.len(),
        forall|k: int| 0 <= k < regs.len() && (#[trigger] regs[k]).fd == f ==> is_ready(regs[k], rd),
    ensures
        !fd_registered(remaining(regs, rd, max), f),
    decreases regs.len(),
{
    if regs.len() == 0 {
    } else {
        let rest = regs.drop_first();
        assert forall|k: int|
            0 <= k < rest.len() && (#[trigger] rest[k]).fd == f implies is_ready(rest[k], rd) by {
            assert(rest[k] == regs[k + 1]);
        }
        if is_ready(regs[0], rd) {
            lemma_remaining_excludes_ready(rest, rd, (max - 1) as nat, f);
        } else {
            assert(regs[0].fd != f);
            lemma_remaining_excludes_ready(rest, rd, max, f);
            let out = remaining(regs, rd, max);
            let sub = remaining(rest, rd, max);
            assert(out =~= seq![regs[0]] + sub);
            if fd_registered(out, f) {
                let k = choose|k: int| 0 <= k < out.len() && out[k].fd == f;
                if k > 0 {
                    assert(sub[k - 1].fd == f);
                    assert(fd_registered(sub, f));
                }
            }
        }
    }
}

proof fn lemma_delivered_contains(regs: Seq<Registration>, rd: Seq<Readiness>, max: nat, k: int)
    requires
        max >= regs.len(),
        0 <= k < regs.len(),
        is_ready(regs[k], rd),
    ensures
        delivered(regs, rd, max).contains(event_of(regs[k], rd)),
    decreases regs.len(),
{
    let rest = regs.drop_first();
    if k == 0 {
        assert(delivered(regs, rd, max)[0] == event_of(regs[0], rd));
    } else {
        assert(rest[k - 1] == regs[k]);
        if is_ready(regs[0], rd) {
            lemma_delivered_contains(rest, rd, (max - 1) as nat, k - 1);
            let sub = delivered(rest, rd, (max - 1) as nat);
            let j = choose|j: int| 0 <= j < sub.len() && sub[j] == event_of(regs[k], rd);
            assert(delivered(regs, rd, max)[j + 1] == event_of(regs[k], rd));
        } else {
            lemma_delivered_contains(rest, rd, max, k - 1);
        }
    }
}

/// Law: registering an interest, observing it ready in a poll whose batch
/// capacity covers the whole table, and then re-registering the same handle
/// with the same token behaves exactly like the first registration. The
/// batch held the interest's event, delivery left no residual state for the
/// handle, and therefore — by `register`'s own contract — the second
/// registration is again accepted and appends the identical entry.
pub proof fn lemma_reregister_round_trip(
    regs: Seq<Registration>,
    reg: Registration,
    rd: Seq<Readiness>,
    max: nat,
)
    requires
        fds_distinct(regs),
        !fd_registered(regs, reg.fd),
        is_ready(reg, rd),
        max >= regs.len() + 1,
    ensures
        delivered(regs.push(reg), rd, max).contains(event_of(reg, rd)),
        !fd_registered(remaining(regs.push(reg), rd, max), reg.fd),
{
    let s = regs.push(reg);
    let last = s.len() - 1;
    assert(s[last] == reg);
    lemma_delivered_contains(s, rd, max, last);
    assert forall|k: int|
        0 <= k < s.len() && (#[trigger] s[k]).fd == reg.fd implies is_ready(s[k], rd) by {
        if k < last {
            assert(s[k] == regs[k]);
            assert(fd_registered(regs, reg.fd));
        }
    }
    lemma_remaining_excludes_ready(s, rd, max, reg.fd);
}

/// Turn one event batch into wake invocations: each entry's token names the
/// task whose wake handle was registered with the interest, so each entry
/// appends that id to the scheduler's ready queue, in batch order. This is
/// the bridge from OS readiness back to the scheduler.
pub fn dispatch<T: Drivable>(ex: &mut Executor<T>, events: &Vec<Event>)
    requires
        old(ex).wf(),
    ensures
        final(ex).wf(),
        final(ex).ready_ids() == old(ex).ready_ids() + events@.map_values(
            |e: Event| e.token,
        ),
        final(ex).tasks_seq() == old(ex).tasks_seq(),
        final(ex).armed_ids() == old(ex).armed_ids(),
        final(ex).completed_ids() == old(ex).completed_ids(),
        final(ex).next_task_id() == old(ex).next_task_id(),
{
    let ghost pre = *ex;
    let n = events.len();
    let mut i: usize = 0;
    while i < n
        invariant
            old(ex).wf(),
            ex.wf(),
            n == events@.len(),
            i <= n,
            ex.ready_ids() == pre.ready_ids() + events@.take(i as int).map_values(
                |e: Event| e.token,
            ),
            ex.tasks_seq() == pre.tasks_seq(),
            ex.armed_ids() == pre.armed_ids(),
            ex.completed_ids() == pre.completed_ids(),
            ex.next_task_id() == pre.next_task_id(),
        decreases n - i,
    {
        let w = ex.from_id(events[i].token);
        w.wake(ex);
        proof {
            assert(events@.take(i + 1).map_values(|e: Event| e.token) =~= events@.take(
                i as int,
            ).map_values(|e: Event| e.token).push(events@[i as int].token));
            assert(ex.ready_ids() =~= pre.ready_ids() + events@.take(i + 1).map_values(
                |e: Event| e.token,
            ));
        }
        i = i + 1;
    }
    proof {
        assert(events@.take(n as int) =~= events@);
    }
}

} // verus!
