//! Writing a whole buffer, and flushing.

use vstd::prelude::*;

use crate::future::Poll;
use crate::io::traits::{AsyncWrite, WriteCall};

verus! {

/// Takes the outcome of one attempt of a `write_all` of `buf` that has
/// written `cursor` bytes so far, the writer having been handed the bytes
/// from the cursor on: `Some` of the result of the `write_all` when the
/// attempt ends it, `None` when the rest is to be written.
///
/// A write of `n` bytes (from the front of the rest) moves the cursor
/// forward by `n`; the `write_all` completes when the cursor reaches the end
/// of `buf`. An error or a pending write is passed on and leaves the cursor
/// where it was.
pub fn write_all_step<E>(
    buf: &[u8],
    cursor: &mut usize,
    outcome: Poll<Result<usize, E>>,
) -> (r: Option<Poll<Result<(), E>>>)
    requires
        *old(cursor) <= buf@.len(),
        outcome matches Poll::Ready(Ok(n)) ==> *old(cursor) + n <= buf@.len(),
    ensures
        *final(cursor) <= buf@.len(),
        match outcome {
            Poll::Ready(Ok(n)) => {
                &&& *final(cursor) == *old(cursor) + n
                &&& if *final(cursor) == buf@.len() {
                    r == Some(Poll::<Result<(), E>>::Ready(Ok(())))
                } else {
                    r is None
                }
            },
            Poll::Ready(Err(e)) => {
                &&& r == Some(Poll::<Result<(), E>>::Ready(Err(e)))
                &&& *final(cursor) == *old(cursor)
            },
            Poll::Pending => {
                &&& r == Some(Poll::<Result<(), E>>::Pending)
                &&& *final(cursor) == *old(cursor)
            },
        },
{
    let total = buf.len();
    match outcome {
        Poll::Pending => Some(Poll::Pending),
        Poll::Ready(Ok(n)) => {
            *cursor = *cursor + n;
            if *cursor == total {
                Some(Poll::Ready(Ok(())))
            } else {
                None
            }
        },
        Poll::Ready(Err(e)) => Some(Poll::Ready(Err(e))),
    }
}

/// The state of `write_all`: the bytes to write, and how many of them the
/// writer has accepted so far (the cursor, which never passes the end).
pub struct WriteAll<'a> {
    buf: &'a [u8],
    cursor: usize,
}

impl<'a> WriteAll<'a> {
    /// Starts writing `buf`, with nothing written yet.
    pub fn new(buf: &'a [u8]) -> (w: Self)
        ensures
            w.bytes() == buf@,
            w.written() == 0,
    {
        WriteAll { buf, cursor: 0 }
    }

    /// The bytes to write.
    pub closed spec fn bytes(&self) -> Seq<u8> {
        self.buf@
    }

    /// How many bytes the writer has accepted so far.
    pub closed spec fn written(&self) -> usize {
        self.cursor
    }

    /// The bytes still to write: from the cursor to the end.
    pub fn remaining(&self) -> (b: &'a [u8])
        requires
            self.written() <= self.bytes().len(),
        ensures
            b@ == self.bytes().subrange(self.written() as int, self.bytes().len() as int),
    {
        vstd::slice::slice_subrange(self.buf, self.cursor, self.buf.len())
    }

    /// Whether the writer reporting `n` more bytes written stays within the
    /// bytes it was handed.
    pub fn can_count(&self, n: usize) -> (r: bool)
        requires
            self.written() <= self.bytes().len(),
        ensures
            r == (self.written() + n <= self.bytes().len()),
    {
        n <= self.buf.len() - self.cursor
    }

    /// Takes the outcome of one attempt to write the remaining bytes (see
    /// `write_all_step`).
    pub fn on_write<E>(&mut self, outcome: Poll<Result<usize, E>>) -> (r: Option<
        Poll<Result<(), E>>,
    >)
        requires
            old(self).written() <= old(self).bytes().len(),
            outcome matches Poll::Ready(Ok(n)) ==> old(self).written() + n <= old(
                self,
            ).bytes().len(),
        ensures
            final(self).bytes() == old(self).bytes(),
            final(self).written() <= final(self).bytes().len(),
            match outcome {
                Poll::Ready(Ok(n)) => {
                    &&& final(self).written() == old(self).written() + n
                    &&& if final(self).written() == old(self).bytes().len() {
                        r == Some(Poll::<Result<(), E>>::Ready(Ok(())))
                    } else {
                        r is None
                    }
                },
                Poll::Ready(Err(e)) => {
                    &&& r == Some(Poll::<Result<(), E>>::Ready(Err(e)))
                    &&& final(self).written() == old(self).written()
                },
                Poll::Pending => {
                    &&& r == Some(Poll::<Result<(), E>>::Pending)
                    &&& final(self).written() == old(self).written()
                },
            },
    {
        write_all_step(self.buf, &mut self.cursor, outcome)
    }
}

/// The writer receives the bytes of a `write_all` once each, in order: an
/// attempt from cursor `c` that writes `n` bytes hands over exactly the
/// bytes `c .. c + n`, so the bytes handed over up to the cursor, attempt
/// after attempt, are those of `buf` up to the cursor.
pub proof fn lemma_written_in_order(buf: Seq<u8>, c: int, n: int)
    requires
        0 <= c,
        0 <= n,
        c + n <= buf.len(),
    ensures
        buf.subrange(c, buf.len() as int).subrange(0, n) == buf.subrange(c, c + n),
        buf.subrange(0, c) + buf.subrange(c, c + n) == buf.subrange(0, c + n),
{
    assert(buf.subrange(c, buf.len() as int).subrange(0, n) =~= buf.subrange(c, c + n));
    assert(buf.subrange(0, c) + buf.subrange(c, c + n) =~= buf.subrange(0, c + n));
}

/// The future of `flush`.
pub struct FlushFuture<'a, W: AsyncWrite + ?Sized> {
    writer: &'a mut W,
}

impl<'a, W: AsyncWrite + ?Sized> FlushFuture<'a, W> {
    /// The writer to flush, as it stands.
    pub closed spec fn writer(&self) -> &W {
        &*self.writer
    }

    /// Starts flushing `writer`.
    pub fn new(writer: &'a mut W) -> (f: Self)
        ensures
            f.writer() == &*old(writer),
    {
        FlushFuture { writer }
    }

    /// Polls the flush (see `flush_future_poll_inner`): the writer is
    /// flushed once, and what the flush returned is returned.
    pub fn poll(&mut self, cx: &mut std::task::Context<'_>) -> (r: Poll<std::io::Result<()>>)
        ensures
            final(self).writer().writes() == old(self).writer().writes().push(WriteCall::Flush(r)),
    {
        flush_future_poll_inner(self.writer, cx)
    }
}

/// Attempts to flush `writer`: one flush, passed on as it is.
pub fn flush_future_poll_inner<W: AsyncWrite + ?Sized>(
    writer: &mut W,
    cx: &mut std::task::Context<'_>,
) -> (r: Poll<std::io::Result<()>>)
    ensures
        final(writer).writes() == old(writer).writes().push(WriteCall::Flush(r)),
{
    writer.poll_flush(cx)
}

} // verus!
