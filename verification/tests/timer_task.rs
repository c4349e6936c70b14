use lilfuture::reactor::Reactor;
use lilfuture::task::TaskFuture;
use lilfuture::time::{TimerFuture, FALLBACK_SLEEP_SECS};
use lilfuture::Poll;

#[test]
fn timer_waits_under_a_fresh_key_each_poll() {
    let mut r: Reactor<&str> = Reactor::new();
    let mut t = TimerFuture::new(100u64);
    assert_eq!(*t.deadline(), 100);
    let (p, key) = t.poll(false, &mut r);
    assert!(matches!(p, Poll::Pending));
    assert_eq!(key, Some(0));
    r.register(0, "waker");
    let (p, key) = t.poll(false, &mut r);
    assert!(matches!(p, Poll::Pending));
    assert_eq!(key, Some(1));
    r.register(1, "waker");
    // the expired timer deregisters its last key only
    let (p, key) = t.poll(true, &mut r);
    assert!(matches!(p, Poll::Ready(())));
    assert_eq!(key, None);
    assert_eq!(r.waker(1), None);
    assert_eq!(r.waker(0), Some(&"waker"));
}

#[test]
fn timer_expired_at_first_poll_registers_nothing() {
    let mut r: Reactor<&str> = Reactor::new();
    r.register(0, "other");
    let mut t = TimerFuture::new(());
    let (p, key) = t.poll(true, &mut r);
    assert!(matches!(p, Poll::Ready(())));
    assert_eq!(key, None);
    assert_eq!(r.waker(0), Some(&"other"));
    assert_eq!(r.next_key(), 0);
}

#[test]
fn fallback_delay_value() {
    assert_eq!(FALLBACK_SLEEP_SECS, 946_080_000);
}

#[test]
fn task_future_is_polled_only_while_pending() {
    let mut t = TaskFuture::new(5u32);
    match t.to_poll() {
        Some(f) => *f += 1,
        None => panic!("a new task is polled"),
    }
    t.record(Poll::Pending);
    match t.to_poll() {
        Some(f) => assert_eq!(*f, 6),
        None => panic!("a pending task is polled"),
    }
    t.record(Poll::Ready(()));
    assert!(t.to_poll().is_none());
    assert!(t.to_poll().is_none());
}
