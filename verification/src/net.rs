//! The decisions of the non-blocking socket operations: an attempt that
//! would block registers interest under the source's event key and is
//! pending; any other outcome is ready.

use vstd::prelude::*;

use crate::future::Poll;
use crate::poll::Event;
use crate::reactor::{keys_to_wake_of, lemma_registered_woken, Reactor};

verus! {

/// The outcome of one attempt of a non-blocking operation.
pub enum IoAttempt<T, E> {
    /// The operation completed with this value.
    Done(T),
    /// The operation would block.
    WouldBlock,
    /// The operation failed with this error.
    Failed(E),
}

/// The key a source with event key `slot` uses when the reactor's next key
/// is `counter`, with its key and the reactor's next key afterwards: the
/// key it has, or else `counter`, which it keeps.
pub open spec fn take_key(slot: Option<usize>, counter: usize) -> (usize, Option<usize>, int) {
    match slot {
        Some(k) => (k, slot, counter as int),
        None => (counter, Some(counter), counter + 1),
    }
}

/// A source keeps its event key: once it took one, every later attempt
/// that would block uses the same key and takes no fresh key from the
/// reactor, whatever the reactor handed out in between.
pub proof fn lemma_key_is_kept(slot: Option<usize>, counter: usize, later_counter: usize)
    ensures
        ({
            let (first, kept, _) = take_key(slot, counter);
            let (second, kept_again, counter_after) = take_key(kept, later_counter);
            &&& second == first
            &&& kept_again == kept
            &&& counter_after == later_counter
        }),
{
}

/// A source whose attempt would block takes its key (see `take_key`); once
/// its interest under that key is registered and the registration recorded
/// with the reactor (see `Reactor::record_registration`), the waker it
/// recorded is the one registered for the key, and any reported event of
/// that key wakes it.
pub proof fn lemma_blocked_source_is_woken<W>(
    slot: Option<usize>,
    counter: usize,
    wakers: Map<usize, W>,
    waker: W,
    events: Seq<Event>,
    i: int,
)
    requires
        0 <= i < events.len(),
        events[i].key == take_key(slot, counter).0,
    ensures
        ({
            let key = take_key(slot, counter).0;
            let after = wakers.insert(key, waker);
            &&& after[key] == waker
            &&& keys_to_wake_of(events, after.dom()).contains(key)
        }),
{
    lemma_registered_woken(events, wakers, take_key(slot, counter).0, waker, i);
}

/// The event key of a source: the one it already has, or else a fresh key
/// from the reactor, which the source keeps from then on.
pub fn event_key_or_next<W>(slot: &mut Option<usize>, reactor: &mut Reactor<W>) -> (key: usize)
    requires
        *old(slot) is None ==> old(reactor).key_counter() < usize::MAX,
    ensures
        final(reactor).wakers() == old(reactor).wakers(),
        (key, *final(slot), final(reactor).key_counter() as int) == take_key(
            *old(slot),
            old(reactor).key_counter(),
        ),
{
    match *slot {
        Some(k) => k,
        None => {
            let k = reactor.next_key();
            *slot = Some(k);
            k
        },
    }
}

/// Decides the poll of a non-blocking operation from its attempt.
///
/// An attempt that would block takes the source's event key (see
/// `event_key_or_next`), returns it for interest to be registered under,
/// and is pending. A completed or failed attempt is ready with its value or
/// its error, and registers nothing.
pub fn poll_io<T, E, W>(
    attempt: IoAttempt<T, E>,
    slot: &mut Option<usize>,
    reactor: &mut Reactor<W>,
) -> (r: (Poll<Result<T, E>>, Option<usize>))
    requires
        *old(slot) is None && attempt is WouldBlock ==> old(reactor).key_counter() < usize::MAX,
    ensures
        final(reactor).wakers() == old(reactor).wakers(),
        match attempt {
            IoAttempt::Done(v) => {
                &&& r == (Poll::<Result<T, E>>::Ready(Ok(v)), None::<usize>)
                &&& *final(slot) == *old(slot)
                &&& final(reactor).key_counter() == old(reactor).key_counter()
            },
            IoAttempt::Failed(e) => {
                &&& r == (Poll::<Result<T, E>>::Ready(Err(e)), None::<usize>)
                &&& *final(slot) == *old(slot)
                &&& final(reactor).key_counter() == old(reactor).key_counter()
            },
            IoAttempt::WouldBlock => {
                let (key, kept, counter) = take_key(*old(slot), old(reactor).key_counter());
                &&& r == (Poll::<Result<T, E>>::Pending, Some(key))
                &&& *final(slot) == kept
                &&& final(reactor).key_counter() == counter
            },
        },
{
    match attempt {
        IoAttempt::WouldBlock => {
            let key = event_key_or_next(slot, reactor);
            (Poll::Pending, Some(key))
        },
        IoAttempt::Failed(e) => (Poll::Ready(Err(e)), None),
        IoAttempt::Done(v) => (Poll::Ready(Ok(v)), None),
    }
}

} // verus!
