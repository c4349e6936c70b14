//! The executor's event loop, as a state machine: which task to poll next,
//! when to block for events, and when all work is done.

use vstd::prelude::*;

use crate::queue::ConcurrentQueue;

verus! {

/// Where the event loop stands.
pub enum Phase {
    /// Polling the scheduled tasks until none is left.
    Draining,
    /// Blocked for events; the tasks they woke are now scheduled.
    AwaitingEvents,
}

/// What the event loop does next.
pub enum Action<T> {
    /// Poll the task carried by the action.
    Poll(T),
    /// Block until at least one event of interest comes.
    BlockForEvents,
    /// Every task spawned has run to completion, or no event could wake a
    /// task again: stop.
    Finish,
}

/// The next phase and action of the event loop, from its phase, its queue
/// of scheduled tasks (front first), the number of spawned tasks whose
/// future has not completed yet, and whether any waker is registered to be
/// woken by an event, with the queue after it.
///
/// While a task is scheduled, the front task is polled. With none
/// scheduled, the loop blocks for events. After blocking, it finishes when
/// every spawned task has completed, or when no waker is registered, so
/// that no event could ever schedule a task again (a later run starts by
/// draining again); otherwise it blocks again.
pub open spec fn step<T>(phase: Phase, queue: Seq<T>, live: nat, can_wake: bool) -> (
    Phase,
    Action<T>,
    Seq<T>,
) {
    if queue.len() > 0 {
        (Phase::Draining, Action::Poll(queue[0]), queue.drop_first())
    } else {
        match phase {
            Phase::Draining => (Phase::AwaitingEvents, Action::BlockForEvents, queue),
            Phase::AwaitingEvents => if live == 0 || !can_wake {
                (Phase::Draining, Action::Finish, queue)
            } else {
                (Phase::AwaitingEvents, Action::BlockForEvents, queue)
            },
        }
    }
}

/// Executes tasks: keeps the queue of scheduled tasks and the number of
/// spawned tasks not yet completed, and decides each step of the event loop
/// that runs them.
///
/// Tasks are responsible for scheduling themselves again when their waker
/// is woken by the reactor while the loop blocks for events.
pub struct Executor<T> {
    queue: ConcurrentQueue<T>,
    phase: Phase,
    live: usize,
}

/// Another name for the executor.
pub type Runtime<T> = Executor<T>;

/// The actions of `k` steps of the event loop from `phase` and `queue`,
/// with `live` tasks not completed, whether a waker is registered given by
/// `can_wake`, and no task scheduled, spawned or completed in between.
pub open spec fn run<T>(phase: Phase, queue: Seq<T>, live: nat, can_wake: bool, k: nat) -> Seq<
    Action<T>,
>
    decreases k,
{
    if k == 0 {
        Seq::empty()
    } else {
        let (next, action, rest) = step(phase, queue, live, can_wake);
        seq![action] + run(next, rest, live, can_wake, (k - 1) as nat)
    }
}

/// The event loop never finishes while a task is scheduled, nor without
/// having blocked for events first, nor while a spawned task has not
/// completed and a waker is registered that an event could wake.
pub proof fn lemma_finish_only_when_all_complete<T>(
    phase: Phase,
    queue: Seq<T>,
    live: nat,
    can_wake: bool,
)
    ensures
        step(phase, queue, live, can_wake).1 is Finish ==> queue.len() == 0 && (live == 0
            || !can_wake) && phase is AwaitingEvents,
        step(phase, queue, live, can_wake).1 is BlockForEvents ==> queue.len() == 0,
{
}

/// Draining polls every scheduled task, in the order the tasks were
/// scheduled, before it blocks for events.
pub proof fn lemma_drain_in_order<T>(queue: Seq<T>, live: nat, can_wake: bool)
    ensures
        run(Phase::Draining, queue, live, can_wake, queue.len() + 1) == queue.map_values(
            |t: T| Action::Poll(t),
        ) + seq![Action::<T>::BlockForEvents],
    decreases queue.len(),
{
    if queue.len() == 0 {
        reveal_with_fuel(run, 2);
        assert(run(Phase::Draining, queue, live, can_wake, 1) =~= seq![Action::<T>::BlockForEvents]);
        assert(queue.map_values(|t: T| Action::Poll(t)) =~= Seq::<Action<T>>::empty());
    } else {
        let rest = queue.drop_first();
        lemma_drain_in_order(rest, live, can_wake);
        assert(queue.map_values(|t: T| Action::Poll(t)) =~= seq![Action::Poll(queue[0])]
            + rest.map_values(|t: T| Action::Poll(t)));
    }
}

/// Tasks spawned one after the other are polled in the order they were
/// spawned: after those already scheduled, and before the executor blocks
/// for events.
pub proof fn lemma_spawned_polled_in_order<T>(
    queue: Seq<T>,
    spawned: Seq<T>,
    live: nat,
    can_wake: bool,
)
    ensures
        run(Phase::Draining, queue + spawned, live, can_wake, queue.len() + spawned.len() + 1) == queue.map_values(
            |t: T| Action::Poll(t),
        ) + spawned.map_values(|t: T| Action::Poll(t)) + seq![Action::<T>::BlockForEvents],
{
    lemma_drain_in_order(queue + spawned, live, can_wake);
    assert((queue + spawned).map_values(|t: T| Action::Poll(t)) =~= queue.map_values(
        |t: T| Action::Poll(t),
    ) + spawned.map_values(|t: T| Action::Poll(t)));
}

/// Whatever the phase, and in particular right after blocking for events,
/// the event loop polls every scheduled task, each once and in the order
/// they were scheduled, before it blocks again: no scheduled task is
/// dropped.
pub proof fn lemma_every_scheduled_task_is_polled<T>(
    phase: Phase,
    queue: Seq<T>,
    live: nat,
    can_wake: bool,
)
    requires
        queue.len() > 0 || phase is Draining,
    ensures
        run(phase, queue, live, can_wake, queue.len() + 1) == queue.map_values(
            |t: T| Action::Poll(t),
        ) + seq![Action::<T>::BlockForEvents],
{
    if queue.len() > 0 {
        let rest = queue.drop_first();
        lemma_drain_in_order(rest, live, can_wake);
        assert(queue.map_values(|t: T| Action::Poll(t)) =~= seq![Action::Poll(queue[0])]
            + rest.map_values(|t: T| Action::Poll(t)));
        assert(run(phase, queue, live, can_wake, queue.len() + 1) == seq![Action::Poll(queue[0])]
            + run(Phase::Draining, rest, live, can_wake, rest.len() + 1));
    } else {
        lemma_drain_in_order(queue, live, can_wake);
    }
}

impl<T> Default for Executor<T> {
    /// An executor with no task, ready to drain (see `new`).
    fn default() -> (e: Self)
        ensures
            e.scheduled() == Seq::<T>::empty(),
            e.phase() is Draining,
            e.live_count() == 0,
    {
        Self::new()
    }
}

impl<T> Executor<T> {
    /// The scheduled tasks, front first.
    pub closed spec fn scheduled(&self) -> Seq<T> {
        self.queue@
    }

    /// Where the event loop stands.
    pub closed spec fn phase(&self) -> Phase {
        self.phase
    }

    /// The number of spawned tasks whose future has not completed.
    pub closed spec fn live_count(&self) -> usize {
        self.live
    }

    /// An executor with no task, ready to drain.
    pub fn new() -> (e: Self)
        ensures
            e.scheduled() == Seq::<T>::empty(),
            e.phase() is Draining,
            e.live_count() == 0,
    {
        Executor { queue: ConcurrentQueue::new(), phase: Phase::Draining, live: 0 }
    }

    /// The number of spawned tasks whose future has not completed.
    pub fn live_tasks(&self) -> (r: usize)
        ensures
            r == self.live_count(),
    {
        self.live
    }

    /// Spawns a new task: pushes it onto the back of the queue of work that
    /// is polled on the next tick of the event loop, and counts it as not
    /// completed.
    pub fn spawn(&mut self, task: T)
        requires
            old(self).live_count() < usize::MAX,
        ensures
            final(self).scheduled() == old(self).scheduled().push(task),
            final(self).phase() == old(self).phase(),
            final(self).live_count() == old(self).live_count() + 1,
    {
        self.queue.push(task);
        self.live = self.live + 1;
    }

    /// Schedules a task that was spawned before (its waker was woken):
    /// pushes it onto the back of the queue.
    pub fn schedule(&mut self, task: T)
        ensures
            final(self).scheduled() == old(self).scheduled().push(task),
            final(self).phase() == old(self).phase(),
            final(self).live_count() == old(self).live_count(),
    {
        self.queue.push(task);
    }

    /// Records that the future of a spawned task has completed.
    pub fn complete(&mut self)
        requires
            old(self).live_count() > 0,
        ensures
            final(self).scheduled() == old(self).scheduled(),
            final(self).phase() == old(self).phase(),
            final(self).live_count() == old(self).live_count() - 1,
    {
        self.live = self.live - 1;
    }

    /// Takes the next step of the event loop (see `step`), given whether
    /// any waker is registered to be woken by an event.
    pub fn next_action(&mut self, can_wake: bool) -> (a: Action<T>)
        ensures
            (final(self).phase(), a, final(self).scheduled()) == step(
                old(self).phase(),
                old(self).scheduled(),
                old(self).live_count() as nat,
                can_wake,
            ),
            old(self).scheduled().len() > 0 ==> {
                &&& a == Action::Poll(old(self).scheduled()[0])
                &&& final(self).scheduled() == old(self).scheduled().drop_first()
            },
            final(self).live_count() == old(self).live_count(),
    {
        match self.queue.pop() {
            Some(task) => {
                self.phase = Phase::Draining;
                Action::Poll(task)
            },
            None => match self.phase {
                Phase::Draining => {
                    self.phase = Phase::AwaitingEvents;
                    Action::BlockForEvents
                },
                Phase::AwaitingEvents => {
                    if self.live == 0 || !can_wake {
                        self.phase = Phase::Draining;
                        Action::Finish
                    } else {
                        Action::BlockForEvents
                    }
                },
            },
        }
    }
}

} // verus!
