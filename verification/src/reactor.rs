//! The reactor's bookkeeping: which waker to wake for which event key, and
//! the sequence of fresh event keys.

use std::collections::HashMap;
use vstd::prelude::*;

use crate::poll::Event;

verus! {

broadcast use vstd::std_specs::hash::group_hash_axioms;

/// The keys of `events`, in order, that have a waker in `live`: one entry
/// per event, so a key reported twice is woken twice.
pub open spec fn keys_to_wake_of(events: Seq<Event>, live: Set<usize>) -> Seq<usize>
    decreases events.len(),
{
    if events.len() == 0 {
        Seq::empty()
    } else {
        let rest = keys_to_wake_of(events.drop_last(), live);
        if live.contains(events.last().key) {
            rest.push(events.last().key)
        } else {
            rest
        }
    }
}

/// Maps event keys to the wakers to wake when an event of that key comes,
/// and hands out event keys.
pub struct Reactor<W> {
    waker_map: HashMap<usize, W>,
    current_key: usize,
}

impl<W> Reactor<W> {
    /// The registered wakers, by event key.
    pub closed spec fn wakers(&self) -> Map<usize, W> {
        self.waker_map@
    }

    /// The key that `next_key` hands out next.
    pub closed spec fn key_counter(&self) -> usize {
        self.current_key
    }

    /// A reactor with no waker, whose first key is 0.
    pub fn new() -> (r: Self)
        ensures
            r.wakers() == Map::<usize, W>::empty(),
            r.key_counter() == 0,
    {
        Reactor { waker_map: HashMap::new(), current_key: 0 }
    }

    /// Registers `waker` to be woken for events of `key`, in place of any
    /// waker registered for it before.
    pub fn register(&mut self, key: usize, waker: W)
        ensures
            final(self).wakers() == old(self).wakers().insert(key, waker),
            final(self).key_counter() == old(self).key_counter(),
    {
        self.waker_map.insert(key, waker);
    }

    /// Records the outcome of registering interest under `key` with the
    /// poller, for `waker` to be woken by its events: when the registration
    /// succeeded, `waker` is registered for `key` (in place of any waker
    /// registered for it before); when it failed, nothing is recorded. The
    /// outcome is handed back.
    pub fn record_registration<E>(&mut self, key: usize, waker: W, outcome: Result<(), E>) -> (r:
        Result<(), E>)
        ensures
            r == outcome,
            final(self).key_counter() == old(self).key_counter(),
            outcome is Ok ==> final(self).wakers() == old(self).wakers().insert(key, waker),
            outcome is Err ==> final(self).wakers() == old(self).wakers(),
    {
        if outcome.is_ok() {
            self.register(key, waker);
        }
        outcome
    }

    /// Deletes interest in the event key `key`.
    pub fn deregister_waker(&mut self, key: usize)
        ensures
            final(self).wakers() == old(self).wakers().remove(key),
            final(self).key_counter() == old(self).key_counter(),
    {
        self.waker_map.remove(&key);
    }

    /// Whether any waker is registered. Blocking for events is pointless
    /// when none is: there would be no task to schedule.
    pub fn has_wakers(&self) -> (r: bool)
        ensures
            r == !self.wakers().is_empty(),
    {
        !self.waker_map.is_empty()
    }

    /// The waker registered for `key`, if any.
    pub fn waker(&self, key: usize) -> (r: Option<&W>)
        ensures
            match r {
                Some(w) => self.wakers().contains_key(key) && *w == self.wakers()[key],
                None => !self.wakers().contains_key(key),
            },
    {
        self.waker_map.get(&key)
    }

    /// The keys of the reported `events`, in order, whose wakers are to be
    /// woken: those with a registered waker.
    pub fn keys_to_wake(&self, events: &Vec<Event>) -> (r: Vec<usize>)
        ensures
            r@ == keys_to_wake_of(events@, self.wakers().dom()),
    {
        let mut r: Vec<usize> = Vec::new();
        let mut i: usize = 0;
        while i < events.len()
            invariant
                0 <= i <= events@.len(),
                r@ == keys_to_wake_of(events@.subrange(0, i as int), self.wakers().dom()),
            decreases events@.len() - i,
        {
            let key = events[i].key;
            proof {
                let prefix = events@.subrange(0, i + 1);
                assert(prefix.drop_last() =~= events@.subrange(0, i as int));
                assert(prefix.last() == events@[i as int]);
            }
            if self.waker_map.contains_key(&key) {
                r.push(key);
            }
            i = i + 1;
        }
        proof {
            assert(events@.subrange(0, events@.len() as int) =~= events@);
        }
        r
    }

    /// Whether `next_key` can hand out another key.
    pub fn can_issue_key(&self) -> (r: bool)
        ensures
            r == (self.key_counter() < usize::MAX),
    {
        self.current_key < usize::MAX
    }

    /// Returns the next event key in the sequence: any given future needs a
    /// key of its own but does not know which keys were handed out before.
    pub fn next_key(&mut self) -> (k: usize)
        requires
            old(self).key_counter() < usize::MAX,
        ensures
            k == old(self).key_counter(),
            final(self).key_counter() == old(self).key_counter() + 1,
            final(self).wakers() == old(self).wakers(),
    {
        let x = self.current_key;
        self.current_key = self.current_key + 1;
        x
    }
}

} // verus!

verus! {

/// Every key to wake is the key of a reported event and has a waker.
pub proof fn lemma_keys_to_wake_are_live(events: Seq<Event>, live: Set<usize>)
    ensures
        forall|j: int|
            0 <= j < keys_to_wake_of(events, live).len() ==> live.contains(
                #[trigger] keys_to_wake_of(events, live)[j],
            ),
    decreases events.len(),
{
    if events.len() > 0 {
        lemma_keys_to_wake_are_live(events.drop_last(), live);
        let rest = keys_to_wake_of(events.drop_last(), live);
        let all = keys_to_wake_of(events, live);
        assert forall|j: int| 0 <= j < all.len() implies live.contains(#[trigger] all[j]) by {
            if j < rest.len() {
                assert(all[j] == rest[j]);
            }
        }
    }
}

/// A key whose waker was deregistered is never woken, whatever events come.
pub proof fn lemma_deregistered_not_woken<W>(events: Seq<Event>, wakers: Map<usize, W>, key: usize)
    ensures
        !keys_to_wake_of(events, wakers.remove(key).dom()).contains(key),
{
    lemma_keys_to_wake_are_live(events, wakers.remove(key).dom());
}

/// A key with a registered waker is woken when an event of that key is
/// reported.
pub proof fn lemma_registered_woken<W>(
    events: Seq<Event>,
    wakers: Map<usize, W>,
    key: usize,
    waker: W,
    i: int,
)
    requires
        0 <= i < events.len(),
        events[i].key == key,
    ensures
        keys_to_wake_of(events, wakers.insert(key, waker).dom()).contains(key),
    decreases events.len(),
{
    let live = wakers.insert(key, waker).dom();
    let rest = keys_to_wake_of(events.drop_last(), live);
    if i == events.len() - 1 {
        assert(keys_to_wake_of(events, live) == rest.push(key));
        assert(keys_to_wake_of(events, live)[rest.len() as int] == key);
    } else {
        lemma_registered_woken(events.drop_last(), wakers, key, waker, i);
        let j = choose|j: int| 0 <= j < rest.len() && rest[j] == key;
        if live.contains(events.last().key) {
            assert(keys_to_wake_of(events, live)[j] == key);
        }
    }
}

/// Deregistering a key undoes its registration: the wakers are those from
/// before, when the key had none.
pub proof fn lemma_deregister_undoes_register<W>(wakers: Map<usize, W>, key: usize, waker: W)
    requires
        !wakers.contains_key(key),
    ensures
        wakers.insert(key, waker).remove(key) == wakers,
{
    assert(wakers.insert(key, waker).remove(key) =~= wakers);
}

/// Every key the reactor hands out is handed out once. Along any run of
/// operations the key counter never drops (`register` and
/// `deregister_waker` keep it, `next_key` moves it one past the key it
/// hands out), so if `counters[i]` is the counter when the `i`-th key is
/// handed out, the keys handed out are strictly increasing.
pub proof fn lemma_issued_keys_distinct(keys: Seq<usize>, counters: Seq<usize>)
    requires
        counters.len() == keys.len(),
        forall|i: int| 0 <= i < keys.len() ==> #[trigger] keys[i] == counters[i],
        forall|i: int| 0 <= i < counters.len() - 1 ==> counters[i + 1] >= #[trigger] counters[i] + 1,
    ensures
        forall|i: int, j: int| 0 <= i < j < keys.len() ==> keys[i] < keys[j],
{
    assert forall|i: int, j: int| 0 <= i < j < keys.len() implies keys[i] < keys[j] by {
        lemma_counters_grow(counters, i, j);
    }
}

/// Counters that grow by at least one at each step grow by at least the
/// number of steps.
proof fn lemma_counters_grow(counters: Seq<usize>, i: int, j: int)
    requires
        0 <= i <= j < counters.len(),
        forall|k: int| 0 <= k < counters.len() - 1 ==> counters[k + 1] >= #[trigger] counters[k] + 1,
    ensures
        counters[j] >= counters[i] + (j - i),
    decreases j - i,
{
    if i < j {
        lemma_counters_grow(counters, i, j - 1);
        assert(counters[(j - 1) + 1] >= counters[j - 1] + 1);
    }
}

} // verus!
