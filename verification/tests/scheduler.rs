use runtime::coroutine::CoroutineB;
use runtime::executor::Executor;
use runtime::task::DriveResult;
use runtime::timer::{AsyncTimer, TimerTask};

#[test]
fn timer_first_poll_pends_then_done() {
    let mut t = AsyncTimer::new(5);
    assert_eq!(t.poll(), DriveResult::Pending);
    assert_eq!(t.poll(), DriveResult::Done);
    assert_eq!(t.poll(), DriveResult::Done);
}

#[test]
fn scheduler_runs_all_to_done() {
    let mut ex: Executor<TimerTask> = Executor::new();
    ex.schedule(TimerTask::new(vec![5]));
    ex.schedule(TimerTask::new(vec![3, 4]));
    ex.schedule(TimerTask::new(vec![1, 2, 3]));
    assert_eq!(ex.task_count(), 3);
    ex.block();
    assert_eq!(ex.task_count(), 0);
    let mut done = ex.completed();
    done.sort();
    assert_eq!(done, vec![0, 1, 2]);
}

#[test]
fn three_timers_complete_in_order() {
    // Three computations waiting on independent timers of 2, 4 and 6 seconds:
    // the first-scheduled, shortest wait completes first, FIFO over the ready
    // queue keeping completion in wake order.
    let mut ex: Executor<TimerTask> = Executor::new();
    ex.schedule(TimerTask::new(vec![2000]));
    ex.schedule(TimerTask::new(vec![4000]));
    ex.schedule(TimerTask::new(vec![6000]));
    ex.block();
    assert_eq!(ex.completed(), vec![0, 1, 2]);
    assert_eq!(ex.task_count(), 0);
}

#[test]
fn coroutine_through_scheduler() {
    let mut ex: Executor<CoroutineB> = Executor::new();
    ex.schedule(CoroutineB::new());
    ex.block();
    assert_eq!(ex.completed(), vec![0]);
    assert_eq!(ex.task_count(), 0);
}

#[test]
fn duplicate_wakes_cause_one_completion() {
    // Firing a wake handle many times before the task is drained leaves
    // duplicate queue entries, but the task still completes exactly once.
    let mut ex: Executor<TimerTask> = Executor::new();
    ex.schedule(TimerTask::new(vec![1000]));
    let w = ex.from_id(0);
    w.wake(&mut ex);
    w.wake(&mut ex);
    w.wake(&mut ex);
    ex.block();
    assert_eq!(ex.completed(), vec![0]);
    assert_eq!(ex.task_count(), 0);
}

#[test]
fn stale_wake_is_noop() {
    // Firing a handle for an id already removed from the table, or never
    // assigned, neither crashes the scheduler nor corrupts the queue.
    let mut ex: Executor<TimerTask> = Executor::new();
    ex.schedule(TimerTask::new(vec![7]));
    ex.block();
    assert_eq!(ex.completed(), vec![0]);
    let done = ex.from_id(0);
    done.wake(&mut ex);
    let unknown = ex.from_id(99);
    unknown.wake(&mut ex);
    ex.drain_ready();
    assert_eq!(ex.task_count(), 0);
    assert_eq!(ex.completed(), vec![0]);
    // a live task scheduled afterwards still runs to completion
    ex.schedule(TimerTask::new(vec![7]));
    ex.block();
    assert_eq!(ex.completed(), vec![0, 1]);
}

#[test]
fn scheduler_interleaves_multi_wait_tasks() {
    // Two tasks with different numbers of waits: the one with fewer waits
    // completes first even though it was scheduled second.
    let mut ex: Executor<TimerTask> = Executor::new();
    ex.schedule(TimerTask::new(vec![10, 10, 10]));
    ex.schedule(TimerTask::new(vec![10]));
    ex.block();
    assert_eq!(ex.completed(), vec![1, 0]);
}
