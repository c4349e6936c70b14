//! Timers: the decisions of a timer future at each poll.

use vstd::prelude::*;

use crate::future::Poll;
use crate::reactor::Reactor;

verus! {

/// The delay, in seconds, that `sleep` falls back to when its deadline
/// cannot be represented: thirty years of 365 days.
pub const FALLBACK_SLEEP_SECS: u64 = 86400 * 365 * 30;

/// The wakers once a timer whose last timer event has key `key` expires:
/// the waker of that event, if any, is deregistered.
pub open spec fn wakers_after_expiry<W>(key: Option<usize>, wakers: Map<usize, W>) -> Map<usize, W> {
    match key {
        Some(k) => wakers.remove(k),
        None => wakers,
    }
}

/// A timer that expires stops being woken for its last timer event: the
/// key that its last pending poll took has no waker afterwards, whatever
/// was registered under it.
pub proof fn lemma_expiry_forgets_last_key<W>(key: usize, wakers: Map<usize, W>)
    ensures
        !wakers_after_expiry(Some(key), wakers).contains_key(key),
{
}

/// A future that completes once its deadline has passed.
///
/// The deadline is kept as a value of the clock's type `D`; whether it has
/// passed is read from the clock at each poll.
pub struct TimerFuture<D> {
    deadline: D,
    event_key: Option<usize>,
}

impl<D> TimerFuture<D> {
    /// The deadline.
    pub closed spec fn due(&self) -> D {
        self.deadline
    }

    /// The key of the last timer event registered for this future, if any.
    pub closed spec fn event_key(&self) -> Option<usize> {
        self.event_key
    }

    /// A timer due at `deadline`, with no timer event registered yet.
    pub fn new(deadline: D) -> (t: Self)
        ensures
            t.due() == deadline,
            t.event_key() is None,
    {
        TimerFuture { deadline, event_key: None }
    }

    /// The deadline.
    pub fn deadline(&self) -> (d: &D)
        ensures
            *d == self.due(),
    {
        &self.deadline
    }

    /// Decides a poll of the timer, given whether the deadline has passed.
    ///
    /// Once the deadline has passed, the waker of the last timer event (if
    /// any) is deregistered and the timer is ready. Before that, the timer
    /// takes a fresh event key, keeps it, and returns it for a timer event
    /// to be registered under until the deadline; it is pending.
    pub fn poll<W>(&mut self, expired: bool, reactor: &mut Reactor<W>) -> (r: (Poll<()>, Option<usize>))
        requires
            !expired ==> old(reactor).key_counter() < usize::MAX,
        ensures
            final(self).due() == old(self).due(),
            expired ==> {
                &&& r == (Poll::<()>::Ready(()), None::<usize>)
                &&& final(self).event_key() == old(self).event_key()
                &&& final(reactor).key_counter() == old(reactor).key_counter()
                &&& final(reactor).wakers() == wakers_after_expiry(
                    old(self).event_key(),
                    old(reactor).wakers(),
                )
            },
            !expired ==> {
                &&& r == (Poll::<()>::Pending, Some(old(reactor).key_counter()))
                &&& final(self).event_key() == Some(old(reactor).key_counter())
                &&& final(reactor).key_counter() == old(reactor).key_counter() + 1
                &&& final(reactor).wakers() == old(reactor).wakers()
            },
    {
        if expired {
            if let Some(key) = self.event_key {
                reactor.deregister_waker(key);
            }
            (Poll::Ready(()), None)
        } else {
            let key = reactor.next_key();
            self.event_key = Some(key);
            (Poll::Pending, Some(key))
        }
    }
}

} // verus!
