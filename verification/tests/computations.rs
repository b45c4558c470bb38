use runtime::coroutine::CoroutineB;
use runtime::naive_timer::AsyncTimer;
use runtime::self_ref::SelfRef;
use runtime::task::{Drivable, DriveResult};

#[test]
fn coroutine_writes_greetings_in_phase_order() {
    // The first-phase side effect lands in the buffer strictly before the
    // second-phase one, across separate drive invocations.
    let mut c = CoroutineB::new();
    assert!(c.buffer().is_none());

    // start -> first wait: the buffer exists and is still empty
    assert_eq!(c.drive(), DriveResult::Pending);
    assert_eq!(c.buffer(), Some(Vec::new()));

    // first wake -> second wait: only the first greeting is present
    assert_eq!(c.drive(), DriveResult::Pending);
    assert_eq!(c.buffer(), Some(b"Hello ".to_vec()));

    // second wake -> resolved: the stack frame is released
    assert_eq!(c.drive(), DriveResult::Done);
    assert!(c.buffer().is_none());
}

#[test]
fn transformed_coroutine_steps_through_its_phases() {
    let mut c = runtime::coroutine::coroutine_transformed();
    assert_eq!(c.drive(), DriveResult::Pending);
    assert_eq!(c.drive(), DriveResult::Pending);
    assert_eq!(c.drive(), DriveResult::Done);
}

#[test]
fn transformed_coroutine_completes_on_a_scheduler() {
    let mut ex = runtime::executor::Executor::new();
    ex.schedule(runtime::coroutine::coroutine_transformed());
    ex.block();
    assert_eq!(ex.completed(), vec![0]);
}

#[test]
fn naive_timer_observes_deadline() {
    let mut t = AsyncTimer::new(2000, "A");
    assert_eq!(t.id().as_str(), "A");
    // first poll fixes the deadline and pends
    assert_eq!(t.poll(1000), DriveResult::Pending);
    // strictly before the deadline: still pending
    assert_eq!(t.poll(2999), DriveResult::Pending);
    // from the deadline on: done
    assert_eq!(t.poll(3000), DriveResult::Done);
    assert_eq!(t.poll(5000), DriveResult::Done);
}

#[test]
fn self_ref_resolves_after_init() {
    let mut s = SelfRef::new(String::from("Hello"));
    assert!(s.referent().is_none());
    s.init();
    assert_eq!(s.referent().unwrap().as_str(), "Hello");
}

#[test]
fn self_ref_survives_swaps() {
    // The offset-based cursor stays valid however the values are relocated:
    // after a swap each cursor resolves against the buffer it moved with.
    let mut a = SelfRef::new(String::from("Hello"));
    let mut b = SelfRef::new(String::from("World"));
    std::mem::swap(&mut a, &mut b);
    a.init();
    b.init();
    assert_eq!(a.referent().unwrap().as_str(), "World");
    assert_eq!(b.referent().unwrap().as_str(), "Hello");
    std::mem::swap(&mut a, &mut b);
    assert_eq!(a.referent().unwrap().as_str(), "Hello");
    assert_eq!(b.referent().unwrap().as_str(), "World");
}
