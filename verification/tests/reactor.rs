use lilfuture::net::{event_key_or_next, poll_io, IoAttempt};
use lilfuture::poll::Event;
use lilfuture::reactor::Reactor;
use lilfuture::Poll;

#[test]
fn keys_are_handed_out_in_sequence() {
    let mut r: Reactor<&str> = Reactor::new();
    assert!(r.can_issue_key());
    assert_eq!(r.next_key(), 0);
    assert_eq!(r.next_key(), 1);
    r.register(0, "a");
    r.deregister_waker(0);
    assert_eq!(r.next_key(), 2);
}

#[test]
fn registered_wakers_are_found_and_replaced() {
    let mut r: Reactor<&str> = Reactor::new();
    assert!(!r.has_wakers());
    r.register(5, "first");
    assert!(r.has_wakers());
    assert_eq!(r.waker(5), Some(&"first"));
    r.register(5, "second");
    assert_eq!(r.waker(5), Some(&"second"));
    assert_eq!(r.waker(6), None);
}

#[test]
fn deregistered_keys_are_not_woken() {
    let mut r: Reactor<&str> = Reactor::new();
    r.register(1, "one");
    r.register(2, "two");
    r.deregister_waker(1);
    let events = vec![Event::readable(1), Event::writable(2), Event::readable(3)];
    assert_eq!(r.keys_to_wake(&events), vec![2]);
    r.deregister_waker(2);
    assert!(!r.has_wakers());
    assert_eq!(r.keys_to_wake(&events), Vec::<usize>::new());
}

#[test]
fn keys_to_wake_follow_the_events_in_order() {
    let mut r: Reactor<u8> = Reactor::new();
    r.register(4, 40);
    r.register(9, 90);
    let events = vec![
        Event::readable(9),
        Event::readable(7),
        Event::writable(4),
        Event::all(9),
    ];
    assert_eq!(r.keys_to_wake(&events), vec![9, 4, 9]);
    assert_eq!(r.keys_to_wake(&Vec::new()), Vec::<usize>::new());
}

#[test]
fn a_source_keeps_its_event_key() {
    let mut r: Reactor<()> = Reactor::new();
    let mut slot = None;
    let k = event_key_or_next(&mut slot, &mut r);
    assert_eq!(k, 0);
    assert_eq!(slot, Some(0));
    let _ = r.next_key();
    assert_eq!(event_key_or_next(&mut slot, &mut r), 0);
    assert_eq!(r.next_key(), 2);
}

#[test]
fn an_attempt_that_would_block_is_pending_under_its_key() {
    let mut r: Reactor<()> = Reactor::new();
    let _ = r.next_key();
    let mut slot = None;
    let (p, key) = poll_io::<u32, (), ()>(IoAttempt::WouldBlock, &mut slot, &mut r);
    assert!(matches!(p, Poll::Pending));
    assert_eq!(key, Some(1));
    let (p, key) = poll_io::<u32, (), ()>(IoAttempt::WouldBlock, &mut slot, &mut r);
    assert!(matches!(p, Poll::Pending));
    assert_eq!(key, Some(1));
    assert_eq!(r.next_key(), 2);
}

#[test]
fn completed_and_failed_attempts_are_ready() {
    let mut r: Reactor<()> = Reactor::new();
    let mut slot = None;
    let (p, key) = poll_io::<u32, &str, ()>(IoAttempt::Done(12), &mut slot, &mut r);
    assert!(matches!(p, Poll::Ready(Ok(12))));
    assert_eq!(key, None);
    let (p, key) = poll_io::<u32, &str, ()>(IoAttempt::Failed("refused"), &mut slot, &mut r);
    assert!(matches!(p, Poll::Ready(Err("refused"))));
    assert_eq!(key, None);
    assert_eq!(slot, None);
    assert_eq!(r.next_key(), 0);
}

#[test]
fn deregistering_undoes_a_registration() {
    let mut r: Reactor<u8> = Reactor::new();
    r.register(1, 10);
    r.register(2, 20);
    r.deregister_waker(2);
    assert_eq!(r.waker(1), Some(&10));
    assert_eq!(r.waker(2), None);
    assert_eq!(r.keys_to_wake(&vec![Event::readable(1), Event::readable(2)]), vec![1]);
}

#[test]
fn a_successful_registration_records_the_waker() {
    let mut r: Reactor<&str> = Reactor::new();
    let key = r.next_key();
    assert_eq!(r.record_registration::<i32>(key, "w", Ok(())), Ok(()));
    assert_eq!(r.waker(key), Some(&"w"));
    let events = vec![Event::readable(key)];
    assert_eq!(r.keys_to_wake(&events), vec![key]);
}

#[test]
fn a_failed_registration_records_nothing() {
    let mut r: Reactor<&str> = Reactor::new();
    let key = r.next_key();
    assert_eq!(r.record_registration(key, "w", Err(2)), Err(2));
    assert_eq!(r.waker(key), None);
    assert!(!r.has_wakers());
    assert_eq!(r.next_key(), 1);
}
