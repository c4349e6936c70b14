//! Events of interest in I/O sources, and the decisions made around the
//! operating system's event queue: what to ask of it when registering a
//! source, which of its replies to a registration are failures, and how a
//! reported event reads.

use vstd::prelude::*;

verus! {

/// Interest in, or readiness of, an I/O source, identified by `key`.
pub struct Event {
    pub key: usize,
    pub readable: bool,
    pub writable: bool,
}

/// The kind of filter of an event reported by the event queue.
pub enum FilterKind {
    Read,
    Write,
    Other,
}

/// What to ask of the event queue for one filter of a source.
pub enum ChangeAction {
    /// Add (or re-arm) the filter.
    Add,
    /// Delete the filter.
    Delete,
}

/// The filter of a change submitted to the event queue: reading or
/// writing on the source's file descriptor, or a timer whose identifier is
/// the event key.
pub enum ChangeFilter {
    Read,
    Write,
    Timer,
}

/// One change submitted to the event queue: its filter, whether it adds or
/// deletes the filter, whether a reply is asked for it (receipt), whether
/// it fires once (one-shot), and the user data reported with its events.
pub struct KeventChange {
    pub filter: ChangeFilter,
    pub action: ChangeAction,
    pub receipt: bool,
    pub oneshot: bool,
    pub udata: isize,
}

/// One reply of the event queue to a registration: whether it carries the
/// error flag, and its data.
pub struct KeventReply {
    pub error: bool,
    pub data: i64,
}

impl Event {
    /// An event with the given key and interests.
    pub fn new(key: usize, readable: bool, writable: bool) -> (e: Self)
        ensures
            e == (Event { key, readable, writable }),
    {
        Self { key, readable, writable }
    }

    /// Interest in reading only.
    pub fn readable(key: usize) -> (e: Self)
        ensures
            e == (Event { key, readable: true, writable: false }),
    {
        Self::new(key, true, false)
    }

    /// Interest in writing only.
    pub fn writable(key: usize) -> (e: Self)
        ensures
            e == (Event { key, readable: false, writable: true }),
    {
        Self::new(key, false, true)
    }

    /// Interest in reading and writing.
    pub fn all(key: usize) -> (e: Self)
        ensures
            e == (Event { key, readable: true, writable: true }),
    {
        Self::new(key, true, true)
    }

    /// Interest in neither.
    pub fn none(key: usize) -> (e: Self)
        ensures
            e == (Event { key, readable: false, writable: false }),
    {
        Self::new(key, false, false)
    }

    /// The event reported by the event queue with user data `udata` and a
    /// filter of kind `filter`: its key is the user data, and it is
    /// readable for a read filter, writable for a write filter.
    pub fn reported(udata: isize, filter: FilterKind) -> (e: Self)
        ensures
            e.key == udata as usize,
            e.readable == (filter is Read),
            e.writable == (filter is Write),
    {
        let readable = match filter {
            FilterKind::Read => true,
            _ => false,
        };
        let writable = match filter {
            FilterKind::Write => true,
            _ => false,
        };
        Self::new(udata as usize, readable, writable)
    }

    /// What to ask for the read filter of a registered source: add it when
    /// the event is readable, delete it otherwise.
    pub fn read_change(&self) -> (a: ChangeAction)
        ensures
            a is Add <==> self.readable,
    {
        if self.readable {
            ChangeAction::Add
        } else {
            ChangeAction::Delete
        }
    }

    /// What to ask for the write filter of a registered source: add it when
    /// the event is writable, delete it otherwise.
    pub fn write_change(&self) -> (a: ChangeAction)
        ensures
            a is Add <==> self.writable,
    {
        if self.writable {
            ChangeAction::Add
        } else {
            ChangeAction::Delete
        }
    }
}

/// The changes that register interest in `event` for a file descriptor: a
/// read filter and a write filter, each added when the event asks for it
/// and deleted otherwise, each with a receipt, one-shot (so that no
/// de-registration is needed), and with the event key as user data.
pub fn registration_changes(event: &Event) -> (r: Vec<KeventChange>)
    ensures
        r@.len() == 2,
        r@[0] == (KeventChange {
            filter: ChangeFilter::Read,
            action: if event.readable { ChangeAction::Add } else { ChangeAction::Delete },
            receipt: true,
            oneshot: true,
            udata: event.key as isize,
        }),
        r@[1] == (KeventChange {
            filter: ChangeFilter::Write,
            action: if event.writable { ChangeAction::Add } else { ChangeAction::Delete },
            receipt: true,
            oneshot: true,
            udata: event.key as isize,
        }),
{
    let udata = event.key as isize;
    let mut r: Vec<KeventChange> = Vec::new();
    r.push(
        KeventChange {
            filter: ChangeFilter::Read,
            action: event.read_change(),
            receipt: true,
            oneshot: true,
            udata,
        },
    );
    r.push(
        KeventChange {
            filter: ChangeFilter::Write,
            action: event.write_change(),
            receipt: true,
            oneshot: true,
            udata,
        },
    );
    r
}

/// The change that registers a timer of event key `key`: a timer filter
/// identified by the key, added, with a receipt, one-shot, and with the key
/// as user data.
pub fn timer_change(key: usize) -> (c: KeventChange)
    ensures
        c == (KeventChange {
            filter: ChangeFilter::Timer,
            action: ChangeAction::Add,
            receipt: true,
            oneshot: true,
            udata: key as isize,
        }),
{
    KeventChange {
        filter: ChangeFilter::Timer,
        action: ChangeAction::Add,
        receipt: true,
        oneshot: true,
        udata: key as isize,
    }
}

/// A reply is a failure of the registration when it carries the error flag
/// and data that is neither 0 nor one of the two tolerated error codes
/// (no such entry, which deleting an absent filter gives, and broken pipe,
/// which a pipe whose other end is closed gives while events are still
/// reported for it).
pub open spec fn is_failure(reply: KeventReply, no_entry: i32, broken_pipe: i32) -> bool {
    &&& reply.error
    &&& reply.data != 0
    &&& reply.data != no_entry as i64
    &&& reply.data != broken_pipe as i64
}

/// The error code of the first failing reply, if any.
pub open spec fn first_failure(replies: Seq<KeventReply>, no_entry: i32, broken_pipe: i32) -> Option<
    i32,
>
    decreases replies.len(),
{
    if replies.len() == 0 {
        None
    } else if is_failure(replies[0], no_entry, broken_pipe) {
        Some(replies[0].data as i32)
    } else {
        first_failure(replies.drop_first(), no_entry, broken_pipe)
    }
}

/// The error code of the first reply that is a failure of the
/// registration, given the tolerated codes for "no such entry" and "broken
/// pipe": `None` exactly when no reply is a failure.
pub fn first_registration_failure(
    replies: &Vec<KeventReply>,
    no_entry: i32,
    broken_pipe: i32,
) -> (r: Option<i32>)
    ensures
        r == first_failure(replies@, no_entry, broken_pipe),
        r is None <==> forall|j: int|
            0 <= j < replies@.len() ==> !is_failure(replies@[j], no_entry, broken_pipe),
        forall|k: int|
            #![trigger is_failure(replies@[k], no_entry, broken_pipe)]
            0 <= k < replies@.len() && is_failure(replies@[k], no_entry, broken_pipe) && (forall|
                j: int,
            | 0 <= j < k ==> !is_failure(replies@[j], no_entry, broken_pipe)) ==> r == Some(
                replies@[k].data as i32,
            ),
{
    let mut i: usize = 0;
    proof {
        assert(replies@.subrange(0, replies@.len() as int) =~= replies@);
    }
    while i < replies.len()
        invariant
            0 <= i <= replies@.len(),
            first_failure(replies@, no_entry, broken_pipe) == first_failure(
                replies@.subrange(i as int, replies@.len() as int),
                no_entry,
                broken_pipe,
            ),
        decreases replies@.len() - i,
    {
        let reply = &replies[i];
        proof {
            let rest = replies@.subrange(i as int, replies@.len() as int);
            assert(rest[0] == replies@[i as int]);
            assert(rest.drop_first() =~= replies@.subrange(i + 1, replies@.len() as int));
        }
        if reply.error && reply.data != 0 && reply.data != no_entry as i64 && reply.data
            != broken_pipe as i64 {
            let code = #[verifier::truncate] (reply.data as i32);
            proof {
                lemma_first_failure_is_the_first(replies@, no_entry, broken_pipe);
            }
            return Some(code);
        }
        i = i + 1;
    }
    proof {
        assert(replies@.subrange(i as int, replies@.len() as int).len() == 0);
        lemma_first_failure_is_the_first(replies@, no_entry, broken_pipe);
    }
    None
}

/// The operating system's code for "no such entry".
///
/// Calls `rustix::io::Errno::raw_os_error` on `Errno::NOENT`; the code is
/// the platform's own, and nothing is claimed of its value.
#[verifier::external_body]
fn no_entry_code() -> i32 {
    rustix::io::Errno::NOENT.raw_os_error()
}

/// The operating system's code for "broken pipe".
///
/// Calls `rustix::io::Errno::raw_os_error` on `Errno::PIPE`; the code is
/// the platform's own, and nothing is claimed of its value.
#[verifier::external_body]
fn broken_pipe_code() -> i32 {
    rustix::io::Errno::PIPE.raw_os_error()
}

/// The error code of the first reply to a registration that is a failure,
/// tolerating the platform's "no such entry" and "broken pipe" codes.
///
/// Whatever the platform's codes are, a reply without the error flag or
/// with data 0 is never reported, and a reported code is the data of a
/// reply that carries the error flag.
pub fn registration_failure(replies: &Vec<KeventReply>) -> (r: Option<i32>)
    ensures
        exists|no_entry: i32, broken_pipe: i32| r == first_failure(replies@, no_entry, broken_pipe),
        r matches Some(code) ==> exists|i: int|
            0 <= i < replies@.len() && replies@[i].error && replies@[i].data != 0 && code
                == replies@[i].data as i32,
{
    let no_entry = no_entry_code();
    let broken_pipe = broken_pipe_code();
    let r = first_registration_failure(replies, no_entry, broken_pipe);
    proof {
        lemma_first_failure_is_a_failure(replies@, no_entry, broken_pipe);
    }
    r
}

/// A reported failure is the data of a failing reply.
pub proof fn lemma_first_failure_is_a_failure(
    replies: Seq<KeventReply>,
    no_entry: i32,
    broken_pipe: i32,
)
    ensures
        first_failure(replies, no_entry, broken_pipe) matches Some(code) ==> exists|i: int|
            0 <= i < replies.len() && is_failure(replies[i], no_entry, broken_pipe) && code
                == replies[i].data as i32,
    decreases replies.len(),
{
    if replies.len() > 0 && !is_failure(replies[0], no_entry, broken_pipe) {
        lemma_first_failure_is_a_failure(replies.drop_first(), no_entry, broken_pipe);
        if first_failure(replies, no_entry, broken_pipe) is Some {
            let i = choose|i: int|
                0 <= i < replies.drop_first().len() && is_failure(
                    replies.drop_first()[i],
                    no_entry,
                    broken_pipe,
                ) && first_failure(replies, no_entry, broken_pipe)->0 == replies.drop_first()[i].data as i32;
            assert(replies[i + 1] == replies.drop_first()[i]);
        }
    }
}

} // verus!

verus! {

/// Whenever a reply is a failure, a failure is reported, and it is that of
/// the first failing reply; no failure is reported only when no reply is a
/// failure.
pub proof fn lemma_first_failure_is_the_first(
    replies: Seq<KeventReply>,
    no_entry: i32,
    broken_pipe: i32,
)
    ensures
        forall|k: int|
            #![trigger is_failure(replies[k], no_entry, broken_pipe)]
            0 <= k < replies.len() && is_failure(replies[k], no_entry, broken_pipe) && (forall|
                j: int,
            | 0 <= j < k ==> !is_failure(replies[j], no_entry, broken_pipe)) ==> first_failure(
                replies,
                no_entry,
                broken_pipe,
            ) == Some(replies[k].data as i32),
        first_failure(replies, no_entry, broken_pipe) is None <==> forall|j: int|
            0 <= j < replies.len() ==> !is_failure(replies[j], no_entry, broken_pipe),
    decreases replies.len(),
{
    if replies.len() > 0 {
        let rest = replies.drop_first();
        lemma_first_failure_is_the_first(rest, no_entry, broken_pipe);
        if is_failure(replies[0], no_entry, broken_pipe) {
            assert forall|k: int|
                #![trigger is_failure(replies[k], no_entry, broken_pipe)]
                0 <= k < replies.len() && is_failure(replies[k], no_entry, broken_pipe) && (forall|
                    j: int,
                | 0 <= j < k ==> !is_failure(replies[j], no_entry, broken_pipe)) implies k == 0 by {
                if k > 0 {
                    assert(!is_failure(replies[0], no_entry, broken_pipe));
                }
            }
        } else {
            assert forall|k: int|
                #![trigger is_failure(replies[k], no_entry, broken_pipe)]
                0 <= k < replies.len() && is_failure(replies[k], no_entry, broken_pipe) && (forall|
                    j: int,
                | 0 <= j < k ==> !is_failure(replies[j], no_entry, broken_pipe)) implies first_failure(
                replies,
                no_entry,
                broken_pipe,
            ) == Some(replies[k].data as i32) by {
                assert(k > 0);
                assert(rest[k - 1] == replies[k]);
                assert forall|j: int| 0 <= j < k - 1 implies !is_failure(
                    rest[j],
                    no_entry,
                    broken_pipe,
                ) by {
                    assert(rest[j] == replies[j + 1]);
                }
                assert(is_failure(rest[k - 1], no_entry, broken_pipe));
            }
            if first_failure(replies, no_entry, broken_pipe) is None {
                assert forall|j: int| 0 <= j < replies.len() implies !is_failure(
                    replies[j],
                    no_entry,
                    broken_pipe,
                ) by {
                    if j > 0 {
                        assert(replies[j] == rest[j - 1]);
                    }
                }
            } else {
                let j = choose|j: int|
                    0 <= j < rest.len() && is_failure(rest[j], no_entry, broken_pipe);
                assert(replies[j + 1] == rest[j]);
            }
        }
    }
}

} // verus!
