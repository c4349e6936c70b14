use lilfuture::poll::{
    first_registration_failure, registration_changes, registration_failure, timer_change,
    ChangeAction, ChangeFilter, Event, FilterKind, KeventReply,
};

fn same(e: &Event, key: usize, readable: bool, writable: bool) -> bool {
    e.key == key && e.readable == readable && e.writable == writable
}

#[test]
fn event_new_keeps_fields() {
    let e = Event::new(42, true, false);
    assert!(same(&e, 42, true, false));
    let e = Event::new(0, false, true);
    assert!(same(&e, 0, false, true));
}

#[test]
fn event_shorthands_match_new() {
    assert!(same(&Event::readable(1234), 1234, true, false));
    assert!(same(&Event::writable(9), 9, false, true));
    assert!(same(&Event::all(3), 3, true, true));
    assert!(same(&Event::none(usize::MAX), usize::MAX, false, false));
}

#[test]
fn reported_event_reads_its_filter() {
    assert!(same(&Event::reported(1234, FilterKind::Read), 1234, true, false));
    assert!(same(&Event::reported(7, FilterKind::Write), 7, false, true));
    assert!(same(&Event::reported(7, FilterKind::Other), 7, false, false));
    // user data is reinterpreted as a key
    assert!(same(&Event::reported(-1, FilterKind::Read), usize::MAX, true, false));
}

#[test]
fn registration_changes_follow_interests() {
    let e = Event::readable(1);
    assert!(matches!(e.read_change(), ChangeAction::Add));
    assert!(matches!(e.write_change(), ChangeAction::Delete));
    let e = Event::all(1);
    assert!(matches!(e.read_change(), ChangeAction::Add));
    assert!(matches!(e.write_change(), ChangeAction::Add));
    let e = Event::none(1);
    assert!(matches!(e.read_change(), ChangeAction::Delete));
    assert!(matches!(e.write_change(), ChangeAction::Delete));
}

fn reply(error: bool, data: i64) -> KeventReply {
    KeventReply { error, data }
}

#[test]
fn first_failure_skips_tolerated_replies() {
    let replies = vec![reply(false, 9), reply(true, 0), reply(true, 2), reply(true, 32)];
    assert_eq!(first_registration_failure(&replies, 2, 32), None);
    let replies = vec![reply(true, 2), reply(true, 13), reply(true, 14)];
    assert_eq!(first_registration_failure(&replies, 2, 32), Some(13));
    assert_eq!(first_registration_failure(&Vec::new(), 2, 32), None);
}

#[test]
fn registration_failure_tolerates_platform_codes() {
    let no_entry = rustix::io::Errno::NOENT.raw_os_error() as i64;
    let broken_pipe = rustix::io::Errno::PIPE.raw_os_error() as i64;
    let replies = vec![reply(true, no_entry), reply(true, broken_pipe), reply(false, 5)];
    assert_eq!(registration_failure(&replies), None);
    let bad = rustix::io::Errno::BADF.raw_os_error();
    let replies = vec![reply(true, no_entry), reply(true, bad as i64)];
    assert_eq!(registration_failure(&replies), Some(bad));
}

#[test]
fn registration_changes_are_one_shot_with_receipt() {
    let changes = registration_changes(&Event::readable(1234));
    assert_eq!(changes.len(), 2);
    assert!(matches!(changes[0].filter, ChangeFilter::Read));
    assert!(matches!(changes[0].action, ChangeAction::Add));
    assert!(matches!(changes[1].filter, ChangeFilter::Write));
    assert!(matches!(changes[1].action, ChangeAction::Delete));
    for c in &changes {
        assert!(c.receipt);
        assert!(c.oneshot);
        assert_eq!(c.udata, 1234);
    }
}

#[test]
fn timer_change_is_an_added_one_shot_timer() {
    let c = timer_change(77);
    assert!(matches!(c.filter, ChangeFilter::Timer));
    assert!(matches!(c.action, ChangeAction::Add));
    assert!(c.receipt && c.oneshot);
    assert_eq!(c.udata, 77);
}
