use std::collections::VecDeque;
use vstd::prelude::*;

verus! {

/// A first-in, first-out queue of work items.
///
/// Sharing the queue between the event loop and the wakers that schedule
/// work (behind a lock) is left to the holder; the queue itself only keeps
/// the order in which items were pushed.
pub struct ConcurrentQueue<T> {
    inner: VecDeque<T>,
}

impl<T> View for ConcurrentQueue<T> {
    type V = Seq<T>;

    /// The queued items, front first.
    closed spec fn view(&self) -> Seq<T> {
        self.inner@
    }
}

impl<T> ConcurrentQueue<T> {
    /// Creates an empty queue.
    pub fn new() -> (q: Self)
        ensures
            q@ == Seq::<T>::empty(),
    {
        ConcurrentQueue { inner: VecDeque::new() }
    }

    /// Pushes a value onto the back of the queue.
    pub fn push(&mut self, value: T)
        ensures
            final(self)@ == old(self)@.push(value),
    {
        self.inner.push_back(value);
    }

    /// Pops the value at the front of the queue, or `None` if the queue is
    /// empty.
    pub fn pop(&mut self) -> (r: Option<T>)
        ensures
            old(self)@.len() == 0 ==> r is None && final(self)@ == old(self)@,
            old(self)@.len() > 0 ==> r == Some(old(self)@[0]) && final(self)@ == old(self)@.drop_first(),
    {
        let r = self.inner.pop_front();
        proof {
            if old(self)@.len() > 0 {
                assert(self@ =~= old(self)@.drop_first());
            }
        }
        r
    }

    /// Whether the queue holds no item.
    pub fn empty(&self) -> (r: bool)
        ensures
            r == (self@.len() == 0),
    {
        proof {
            broadcast use vstd::std_specs::vecdeque::axiom_spec_len;
        }
        self.inner.len() == 0
    }
}

/// Items leave the queue in the order they entered it: pushing an item
/// does not change which item comes out next, and an item pushed onto an
/// empty queue is the next to come out.
pub proof fn lemma_fifo<T>(items: Seq<T>, item: T)
    ensures
        items.len() > 0 ==> items.push(item)[0] == items[0] && items.push(item).drop_first()
            == items.drop_first().push(item),
        items.len() == 0 ==> items.push(item)[0] == item && items.push(item).drop_first()
            == Seq::<T>::empty(),
{
    assert(items.len() > 0 ==> items.push(item).drop_first() =~= items.drop_first().push(item));
    assert(items.len() == 0 ==> items.push(item).drop_first() =~= Seq::<T>::empty());
}

} // verus!
