use vstd::prelude::*;

verus! {

/// The outcome of polling a computation: finished with a value, or not yet
/// able to make progress.
pub enum Poll<T> {
    Ready(T),
    Pending,
}

impl<T> Poll<T> {
    /// Whether the computation is still in progress.
    pub fn is_pending(&self) -> (r: bool)
        ensures
            r == (*self is Pending),
    {
        match self {
            Poll::Ready(_) => false,
            Poll::Pending => true,
        }
    }
}

} // verus!
