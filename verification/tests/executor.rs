use lilfuture::executor::{Action, Executor, Runtime};
use lilfuture::queue::ConcurrentQueue;

fn is_poll(a: &Action<&str>, task: &str) -> bool {
    matches!(a, Action::Poll(t) if *t == task)
}

#[test]
fn queue_is_first_in_first_out() {
    let mut q = ConcurrentQueue::new();
    assert!(q.empty());
    q.push(1);
    q.push(2);
    assert_eq!(q.pop(), Some(1));
    q.push(3);
    assert_eq!(q.pop(), Some(2));
    assert_eq!(q.pop(), Some(3));
    assert_eq!(q.pop(), None);
    assert!(q.empty());
}

#[test]
fn loop_drains_blocks_and_finishes_once_all_complete() {
    let mut e = Executor::new();
    e.spawn("a");
    e.spawn("b");
    assert_eq!(e.live_tasks(), 2);
    assert!(is_poll(&e.next_action(true), "a"));
    e.complete();
    assert!(is_poll(&e.next_action(true), "b"));
    e.complete();
    assert!(matches!(e.next_action(true), Action::BlockForEvents));
    assert!(matches!(e.next_action(true), Action::Finish));
}

#[test]
fn loop_does_not_finish_while_a_task_is_pending() {
    let mut e = Executor::new();
    e.spawn("waiting");
    assert!(is_poll(&e.next_action(true), "waiting"));
    // the task returned Pending: the loop keeps blocking for events
    assert!(matches!(e.next_action(true), Action::BlockForEvents));
    assert!(matches!(e.next_action(true), Action::BlockForEvents));
    // its waker is woken and it completes
    e.schedule("waiting");
    assert_eq!(e.live_tasks(), 1);
    assert!(is_poll(&e.next_action(true), "waiting"));
    e.complete();
    assert_eq!(e.live_tasks(), 0);
    assert!(matches!(e.next_action(true), Action::BlockForEvents));
    assert!(matches!(e.next_action(true), Action::Finish));
}

#[test]
fn tasks_scheduled_while_draining_are_polled_in_the_same_drain() {
    let mut e = Executor::new();
    e.spawn("a");
    assert!(is_poll(&e.next_action(true), "a"));
    e.schedule("a again");
    assert!(is_poll(&e.next_action(true), "a again"));
    assert!(matches!(e.next_action(true), Action::BlockForEvents));
}

#[test]
fn a_finished_loop_can_run_again() {
    let mut e: Runtime<&str> = Runtime::default();
    assert!(matches!(e.next_action(true), Action::BlockForEvents));
    assert!(matches!(e.next_action(true), Action::Finish));
    e.spawn("late");
    assert!(is_poll(&e.next_action(true), "late"));
    e.complete();
    assert!(matches!(e.next_action(true), Action::BlockForEvents));
    assert!(matches!(e.next_action(true), Action::Finish));
}

#[test]
fn loop_finishes_when_no_waker_could_wake_a_pending_task() {
    let mut e = Executor::new();
    e.spawn("stuck");
    assert!(is_poll(&e.next_action(false), "stuck"));
    // the task returned Pending without registering a waker
    assert!(matches!(e.next_action(false), Action::BlockForEvents));
    assert!(matches!(e.next_action(false), Action::Finish));
    assert_eq!(e.live_tasks(), 1);
}
