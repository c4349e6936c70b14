use vstd::prelude::*;

use crate::future::Poll;
use crate::io::traits::{read_call, AsyncRead};

verus! {

/// The size of the buffer of a reader made by `BufReader::new`.
pub const BUF_SIZE: usize = 1024;

/// What a buffered reader has to offer its consumer: the bytes of its
/// buffer, the position up to which they were consumed, and how many bytes
/// the underlying reader has filled in.
pub struct BufView {
    pub bytes: Seq<u8>,
    pub cursor: nat,
    pub filled: nat,
}

/// The outcome of a fill that read data.
pub enum Filled {
    /// The underlying reader reported end of stream: nothing is offered.
    Nothing,
    /// Bytes were read: the unconsumed filled bytes, from the cursor to the
    /// filled length, are offered.
    Window,
}

/// The buffer is kept whole, `capacity` bytes long, and the cursor does not
/// pass the filled length, which does not pass the capacity.
pub open spec fn view_wf(v: BufView, capacity: nat) -> bool {
    &&& v.bytes.len() == capacity
    &&& v.cursor <= v.filled <= capacity
}

/// The unconsumed filled bytes: from the cursor to the filled length.
pub open spec fn unconsumed(v: BufView) -> Seq<u8> {
    v.bytes.subrange(v.cursor as int, v.filled as int)
}

/// The buffer after the bytes at `from .. to` were moved to the front (a
/// copy within the buffer, front to back); the bytes after them stay.
pub open spec fn shift_down(bytes: Seq<u8>, from: int, to: int) -> Seq<u8> {
    Seq::new(bytes.len(), |k: int| if k < to - from { bytes[from + k] } else { bytes[k] })
}

/// Whether `amount` bytes can be consumed without failing: either all the
/// filled bytes are consumed at once, or the new cursor does not pass the
/// filled length.
pub open spec fn consume_allowed(v: BufView, amount: nat) -> bool {
    ||| amount == v.filled
    ||| v.cursor + amount <= v.filled
}

/// The state after consuming `amount` bytes.
pub open spec fn consumed(v: BufView, amount: nat) -> BufView {
    if amount == v.filled {
        BufView { bytes: v.bytes, cursor: 0, filled: 0 }
    } else {
        let c = v.cursor + amount;
        BufView {
            bytes: shift_down(v.bytes, c as int, v.filled as int),
            cursor: 0,
            filled: (v.filled - c) as nat,
        }
    }
}

/// The number of bytes a read that returned `outcome` delivered: 0 for
/// every outcome that read nothing.
pub open spec fn read_count(outcome: Poll<std::io::Result<usize>>) -> nat {
    match outcome {
        Poll::Ready(Ok(n)) => n as nat,
        _ => 0,
    }
}

/// The state after the underlying reader was handed the unfilled part of
/// the buffer and left `region` in it, reporting `n` bytes read (`n` is 0
/// for every outcome that read nothing).
pub open spec fn after_read(v: BufView, region: Seq<u8>, n: nat) -> BufView {
    BufView {
        bytes: v.bytes.subrange(0, v.filled as int) + region,
        cursor: v.cursor,
        filled: v.filled + n,
    }
}

/// The cursor is back at the front of the buffer after every step: a fill
/// leaves it where it was and a consume returns it to 0, so from an empty
/// reader on it is always 0.
pub proof fn lemma_cursor_stays_at_front(v: BufView, region: Seq<u8>, n: nat, amount: nat)
    requires
        v.cursor == 0,
    ensures
        after_read(v, region, n).cursor == 0,
        consumed(v, amount).cursor == 0,
{
}

/// A fill keeps the buffered bytes and puts the bytes read right after
/// them: the bytes on offer are those that were on offer, then those just
/// read.
pub proof fn lemma_fill_appends(v: BufView, capacity: nat, region: Seq<u8>, n: nat)
    requires
        view_wf(v, capacity),
        region.len() + v.filled == capacity,
        n <= region.len(),
    ensures
        view_wf(after_read(v, region, n), capacity),
        unconsumed(after_read(v, region, n)) == unconsumed(v) + region.subrange(0, n as int),
{
    let w = after_read(v, region, n);
    assert(unconsumed(w) =~= unconsumed(v) + region.subrange(0, n as int));
}

/// Consuming everything that was filled empties the buffer.
pub proof fn lemma_consume_all_empties(v: BufView, capacity: nat)
    requires
        view_wf(v, capacity),
    ensures
        consume_allowed(v, v.filled),
        consumed(v, v.filled) == (BufView { bytes: v.bytes, cursor: 0, filled: 0 }),
{
}

/// Consuming `amount` bytes drops exactly the first `amount` bytes on
/// offer: the rest stay on offer, in order, at the front of the buffer.
pub proof fn lemma_consume_drops_front(v: BufView, capacity: nat, amount: nat)
    requires
        view_wf(v, capacity),
        v.cursor + amount <= v.filled,
    ensures
        consume_allowed(v, amount),
        view_wf(consumed(v, amount), capacity),
        consumed(v, amount).cursor == 0,
        unconsumed(consumed(v, amount)) == unconsumed(v).subrange(
            amount as int,
            unconsumed(v).len() as int,
        ),
{
    let w = consumed(v, amount);
    assert(unconsumed(w) =~= unconsumed(v).subrange(amount as int, unconsumed(v).len() as int));
}

/// Consuming in two steps offers the same bytes as consuming the total at
/// once.
pub proof fn lemma_consume_split(v: BufView, capacity: nat, a: nat, b: nat)
    requires
        view_wf(v, capacity),
        v.cursor + a + b <= v.filled,
    ensures
        unconsumed(consumed(consumed(v, a), b)) == unconsumed(consumed(v, a + b)),
{
    lemma_consume_drops_front(v, capacity, a);
    lemma_consume_drops_front(consumed(v, a), capacity, b);
    lemma_consume_drops_front(v, capacity, a + b);
    let u = unconsumed(v);
    assert(u.subrange(a as int, u.len() as int).subrange(b as int, u.len() - a) =~= u.subrange(
        (a + b) as int,
        u.len() as int,
    ));
}

/// An in-memory buffer of `N` bytes in front of a reader.
///
/// The reader fills the buffer from the filled length on; the consumer is
/// offered the bytes from the cursor to the filled length, and consumes
/// them from the front.
pub struct BufReader<const N: usize> {
    buffer: Vec<u8>,
    consumed: usize,
    len: usize,
}

impl<const N: usize> BufReader<N> {
    /// The buffer keeps its `N` bytes and the cursor and the filled length
    /// stay within it (see `view_wf`).
    pub closed spec fn wf(&self) -> bool {
        &&& self.buffer@.len() == N
        &&& self.consumed <= self.len <= N
    }

    /// The well-formedness of a reader is that of its view.
    pub proof fn lemma_wf_view(&self)
        ensures
            self.wf() <==> view_wf(self.view(), N as nat),
    {
    }

    /// The buffer, its cursor and its filled length.
    pub closed spec fn view(&self) -> BufView {
        BufView { bytes: self.buffer@, cursor: self.consumed as nat, filled: self.len as nat }
    }

    /// The part of the buffer that the underlying reader may fill: from the
    /// filled length to the end.
    pub fn unfilled(&self) -> (r: Vec<u8>)
        requires
            self.wf(),
        ensures
            r@ == self.view().bytes.subrange(self.view().filled as int, N as int),
    {
        let mut r: Vec<u8> = Vec::new();
        let mut k: usize = self.len;
        while k < N
            invariant
                self.buffer@.len() == N,
                self.len <= k <= N,
                r@ == self.buffer@.subrange(self.len as int, k as int),
            decreases N - k,
        {
            r.push(self.buffer[k]);
            k = k + 1;
            proof {
                assert(r@ =~= self.buffer@.subrange(self.len as int, k as int));
            }
        }
        r
    }

    /// The bytes offered to the consumer: from the cursor to the filled
    /// length.
    pub fn window(&self) -> (r: &[u8])
        requires
            self.wf(),
        ensures
            r@ == unconsumed(self.view()),
    {
        vstd::slice::slice_subrange(self.buffer.as_slice(), self.consumed, self.len)
    }

    /// Takes back the unfilled part of the buffer after the underlying reader
    /// was handed it, with the reader's outcome.
    ///
    /// Whatever the outcome, the region as the reader left it is written
    /// back. A read of `n > 0` bytes extends the filled length by `n` and
    /// offers the unconsumed filled bytes; a read of 0 bytes offers nothing; an error or a
    /// pending read is passed on.
    pub fn on_read<E>(&mut self, region: Vec<u8>, outcome: Poll<Result<usize, E>>) -> (r: Poll<
        Result<Filled, E>,
    >)
        requires
            old(self).wf(),
            region@.len() + old(self).view().filled == N,
            outcome matches Poll::Ready(Ok(n)) ==> n <= region@.len(),
        ensures
            final(self).wf(),
            ({
                let n: nat = match outcome {
                    Poll::Ready(Ok(n)) => n as nat,
                    _ => 0,
                };
                final(self).view() == after_read(old(self).view(), region@, n)
            }),
            match outcome {
                Poll::Pending => r is Pending,
                Poll::Ready(Err(e)) => r == Poll::<Result<Filled, E>>::Ready(Err(e)),
                Poll::Ready(Ok(n)) => if n == 0 {
                    r == Poll::<Result<Filled, E>>::Ready(Ok(Filled::Nothing))
                } else {
                    r == Poll::<Result<Filled, E>>::Ready(Ok(Filled::Window))
                },
            },
    {
        let ghost old_bytes = self.buffer@;
        let start = self.len;
        let mut k: usize = 0;
        while k < region.len()
            invariant
                start == self.len,
                self.len == old(self).len,
                self.consumed == old(self).consumed,
                old_bytes == old(self).buffer@,
                old_bytes.len() == N,
                self.consumed <= self.len <= N,
                region@.len() + self.len == N,
                self.buffer@.len() == N,
                0 <= k <= region@.len(),
                forall|j: int| 0 <= j < start + k ==> #[trigger] self.buffer@[j] == if j < start {
                    old_bytes[j]
                } else {
                    region@[j - start]
                },
                forall|j: int| start + k <= j < N ==> #[trigger] self.buffer@[j] == old_bytes[j],
            decreases region@.len() - k,
        {
            self.buffer.set(start + k, region[k]);
            k = k + 1;
        }
        proof {
            assert(self.buffer@ =~= old_bytes.subrange(0, start as int) + region@);
        }
        match outcome {
            Poll::Pending => Poll::Pending,
            Poll::Ready(Err(e)) => Poll::Ready(Err(e)),
            Poll::Ready(Ok(n)) => {
                if n == 0 {
                    Poll::Ready(Ok(Filled::Nothing))
                } else {
                    self.len = self.len + n;
                    Poll::Ready(Ok(Filled::Window))
                }
            },
        }
    }

    /// Attempts to fill the buffer from `reader` and offers the buffered
    /// bytes.
    ///
    /// The reader is read once, handed the unfilled part of the buffer; that
    /// read is added to its history. What the reader left in the unfilled
    /// part stays in the buffer whatever the outcome. If it reads `n > 0`
    /// bytes, the filled length grows by `n` and the unconsumed filled bytes
    /// are offered: those on offer before, then the `n` bytes read; if it
    /// reads 0 bytes, nothing is offered; an error or a pending read is
    /// passed on.
    pub fn poll_fill_buf<R: AsyncRead + ?Sized>(
        &mut self,
        reader: &mut R,
        cx: &mut std::task::Context<'_>,
    ) -> (r: Poll<std::io::Result<&[u8]>>)
        requires
            old(self).wf(),
        ensures
            final(self).wf(),
            ({
                let call = final(reader).reads().last();
                &&& final(reader).reads() == old(reader).reads().push(call)
                &&& call.room + old(self).view().filled == N
                &&& call.left.len() == call.room
                &&& final(self).view() == after_read(old(self).view(), call.left, read_count(call.outcome))
                &&& call.outcome is Pending ==> r is Pending
                &&& call.outcome matches Poll::Ready(Err(e)) ==> r matches Poll::Ready(Err(f)) && f == e
                &&& call.outcome matches Poll::Ready(Ok(n)) ==> r matches Poll::Ready(Ok(s)) && if n == 0 {
                    s@.len() == 0
                } else {
                    &&& s@ == unconsumed(final(self).view())
                    &&& s@ == unconsumed(old(self).view()) + call.left.subrange(0, n as int)
                }
            }),
    {
        let mut region = self.unfilled();
        let outcome = fill_buf_internal(region.as_mut_slice(), reader, cx);
        let n: Ghost<nat> = Ghost(
            match outcome {
                Poll::Ready(Ok(n)) => n as nat,
                _ => 0,
            },
        );
        let ghost left = region@;
        match self.on_read(region, outcome) {
            Poll::Pending => Poll::Pending,
            Poll::Ready(Err(e)) => Poll::Ready(Err(e)),
            Poll::Ready(Ok(Filled::Nothing)) => {
                let empty: &[u8] = &[];
                proof {
                    assert(empty@.len() == 0);
                }
                Poll::Ready(Ok(empty))
            },
            Poll::Ready(Ok(Filled::Window)) => {
                proof {
                    assert(unconsumed(self.view()) =~= unconsumed(old(self).view()) + left.subrange(
                        0,
                        n@ as int,
                    ));
                }
                Poll::Ready(Ok(self.window()))
            },
        }
    }

    /// Whether consuming `amount` bytes would succeed (see `consume`).
    pub fn can_consume(&self, amount: usize) -> (r: bool)
        requires
            self.wf(),
        ensures
            r == consume_allowed(self.view(), amount as nat),
    {
        amount == self.len || amount <= self.len - self.consumed
    }

    /// Consumes `amount` bytes from the front of the window.
    ///
    /// Consuming all the filled bytes empties the buffer. Otherwise the
    /// cursor moves forward by `amount`, the unconsumed bytes (from the new
    /// cursor to the filled length) are moved to the front, the filled
    /// length drops by the new cursor and the cursor returns to 0.
    pub fn consume(&mut self, amount: usize)
        requires
            old(self).wf(),
            consume_allowed(old(self).view(), amount as nat),
        ensures
            final(self).wf(),
            final(self).view() == consumed(old(self).view(), amount as nat),
    {
        if amount == self.len {
            self.len = 0;
            self.consumed = 0;
            return;
        }
        let cursor = self.consumed + amount;
        let ghost old_bytes = self.buffer@;
        let count = self.len - cursor;
        let mut k: usize = 0;
        while k < count
            invariant
                self.buffer@.len() == N,
                old_bytes.len() == N,
                self.len == old(self).len,
                self.consumed == old(self).consumed,
                cursor == self.consumed + amount,
                cursor <= self.len <= N,
                count == self.len - cursor,
                0 <= k <= count,
                forall|j: int| 0 <= j < k ==> #[trigger] self.buffer@[j] == old_bytes[cursor + j],
                forall|j: int| k <= j < N ==> #[trigger] self.buffer@[j] == old_bytes[j],
            decreases count - k,
        {
            let b = self.buffer[cursor + k];
            self.buffer.set(k, b);
            k = k + 1;
        }
        proof {
            assert(self.buffer@ =~= shift_down(old_bytes, cursor as int, self.len as int));
        }
        self.len = self.len - cursor;
        self.consumed = 0;
    }
}

/// Attempts to fill `buf` from `reader`: one read, passed on as it is.
pub fn fill_buf_internal<R: AsyncRead + ?Sized>(
    buf: &mut [u8],
    reader: &mut R,
    cx: &mut std::task::Context<'_>,
) -> (r: Poll<std::io::Result<usize>>)
    ensures
        final(buf)@.len() == old(buf)@.len(),
        r matches Poll::Ready(Ok(n)) ==> n <= old(buf)@.len(),
        final(reader).reads() == old(reader).reads().push(read_call(old(buf)@.len(), final(buf)@, r)),
{
    reader.poll_read(cx, buf)
}

impl BufReader<BUF_SIZE> {
    /// Creates a reader with an empty buffer of `BUF_SIZE` zero bytes.
    pub fn new() -> (r: Self)
        ensures
            r.wf(),
            r.view() == (BufView { bytes: Seq::new(BUF_SIZE as nat, |i: int| 0u8), cursor: 0, filled: 0 }),
    {
        let buffer: Vec<u8> = vec![0u8; BUF_SIZE];
        proof {
            assert(buffer@ =~= Seq::new(BUF_SIZE as nat, |i: int| 0u8));
        }
        BufReader { buffer, consumed: 0, len: 0 }
    }
}

/// Another name for the buffered reader of `BUF_SIZE` bytes.
pub type AsyncBufferedReader = BufReader<BUF_SIZE>;

} // verus!
