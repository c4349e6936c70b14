//! The guard around a task's top-level future.

use vstd::prelude::*;

use crate::future::Poll;

verus! {

/// A task's top-level future with the result of its last poll.
///
/// A future must not be polled again once it is ready, but a task may be
/// woken spuriously after it completed (the executor schedules tasks as it
/// likes), so the result of the last poll decides whether the future is
/// polled at all.
pub struct TaskFuture<F> {
    future: F,
    poll: Poll<()>,
}

impl<F> TaskFuture<F> {
    /// The future.
    pub closed spec fn inner(&self) -> F {
        self.future
    }

    /// The result of the last poll (pending before the first).
    pub closed spec fn last_poll(&self) -> Poll<()> {
        self.poll
    }

    /// Wraps `future`, not yet polled.
    pub fn new(future: F) -> (t: Self)
        ensures
            t.inner() == future,
            t.last_poll() is Pending,
    {
        TaskFuture { future, poll: Poll::Pending }
    }

    /// The future, to be polled, while the last poll left it pending; `None`
    /// once it is ready.
    pub fn to_poll(&mut self) -> (r: Option<&mut F>)
        ensures
            final(self).last_poll() == old(self).last_poll(),
            old(self).last_poll() is Pending <==> r is Some,
            r matches Some(f) ==> *f == old(self).inner() && final(self).inner() == *final(f),
            r is None ==> final(self).inner() == old(self).inner(),
    {
        if self.poll.is_pending() {
            Some(&mut self.future)
        } else {
            None
        }
    }

    /// Records the result of a poll of the future.
    pub fn record(&mut self, result: Poll<()>)
        requires
            old(self).last_poll() is Pending,
        ensures
            final(self).last_poll() == result,
            final(self).inner() == old(self).inner(),
    {
        self.poll = result;
    }
}

} // verus!
