use runtime::executor::Executor;
use runtime::reactor::{dispatch, Event, Poll, Readiness, RegisterError};
use runtime::timer::TimerTask;

#[test]
fn poll_with_no_interests_returns_empty_batch() {
    // Zero registered interests and a finite timeout: the batch comes back
    // empty once the timeout has elapsed; that is not an error.
    let mut p = Poll::new();
    let mut events: Vec<Event> = Vec::new();
    let readiness: Vec<Readiness> = Vec::new();
    p.poll(&mut events, 8, &readiness, Some(100));
    assert!(events.is_empty());
}

#[test]
fn register_rejects_live_duplicate() {
    let mut p = Poll::new();
    assert!(p.register(7, 0, 1).is_ok());
    assert_eq!(p.register(7, 1, 1), Err(RegisterError::AlreadyRegistered));
}

#[test]
fn reregistration_after_delivery_behaves_like_the_first() {
    // Register, observe the interest ready via poll, re-register the same
    // handle with the same token: no residual state is left behind.
    let mut p = Poll::new();
    assert!(p.register(7, 3, 1).is_ok());
    let mut events: Vec<Event> = Vec::new();
    let readiness = vec![Readiness { fd: 7, kinds: 1 }];
    p.poll(&mut events, 8, &readiness, None);
    assert_eq!(events, vec![Event { token: 3, kinds: 1 }]);
    // delivery disarmed the interest, so the same registration succeeds again
    assert!(p.register(7, 3, 1).is_ok());
    let mut events2: Vec<Event> = Vec::new();
    p.poll(&mut events2, 8, &readiness, None);
    assert_eq!(events2, vec![Event { token: 3, kinds: 1 }]);
}

#[test]
fn poll_truncates_to_capacity_and_keeps_the_rest() {
    let mut p = Poll::new();
    assert!(p.register(3, 0, 1).is_ok());
    assert!(p.register(4, 1, 1).is_ok());
    assert!(p.register(5, 2, 1).is_ok());
    let readiness = vec![
        Readiness { fd: 3, kinds: 1 },
        Readiness { fd: 4, kinds: 1 },
        Readiness { fd: 5, kinds: 1 },
    ];
    let mut events: Vec<Event> = Vec::new();
    p.poll(&mut events, 2, &readiness, None);
    assert_eq!(
        events,
        vec![Event { token: 0, kinds: 1 }, Event { token: 1, kinds: 1 }]
    );
    // the undelivered interest stayed registered
    let mut events2: Vec<Event> = Vec::new();
    p.poll(&mut events2, 2, &readiness, None);
    assert_eq!(events2, vec![Event { token: 2, kinds: 1 }]);
}

#[test]
fn poll_matches_interest_masks() {
    let mut p = Poll::new();
    // interested in kind 1 only; kind 2 readiness does not satisfy it
    assert!(p.register(3, 0, 1).is_ok());
    let mut events: Vec<Event> = Vec::new();
    let readiness = vec![Readiness { fd: 3, kinds: 2 }];
    p.poll(&mut events, 8, &readiness, None);
    assert!(events.is_empty());
    // overlapping kinds are delivered masked to the interest
    let readiness2 = vec![Readiness { fd: 3, kinds: 3 }];
    p.poll(&mut events, 8, &readiness2, None);
    assert_eq!(events, vec![Event { token: 0, kinds: 1 }]);
}

#[test]
fn events_dispatch_to_wake_invocations() {
    // End to end: a pending task's wake arrives as an event batch entry whose
    // token is the task id; dispatching the batch re-readies the task.
    let mut ex: Executor<TimerTask> = Executor::new();
    ex.schedule(TimerTask::new(vec![50]));
    ex.drain_ready();
    assert_eq!(ex.task_count(), 1);

    let mut p = Poll::new();
    assert!(p.register(9, 0, 1).is_ok());
    let readiness = vec![Readiness { fd: 9, kinds: 1 }];
    let mut events: Vec<Event> = Vec::new();
    p.poll(&mut events, 8, &readiness, None);
    dispatch(&mut ex, &events);
    ex.drain_ready();
    assert_eq!(ex.task_count(), 0);
    assert_eq!(ex.completed(), vec![0]);
}
