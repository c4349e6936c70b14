//! The reading and writing interfaces that I/O sources implement.

use vstd::prelude::*;

use crate::future::Poll;

verus! {

/// The context of a poll: it carries the waker of the task being polled,
/// which a source registers to be woken when it can make progress.
#[verifier::external_type_specification]
#[verifier::external_body]
pub struct ExContext<'a>(std::task::Context<'a>);

/// The error of an I/O operation.
#[verifier::external_type_specification]
#[verifier::external_body]
pub struct ExIoError(std::io::Error);

/// One call of `poll_read`, as the reader's history records it.
pub struct ReadCall {
    /// The length of the buffer the reader was handed.
    pub room: nat,
    /// The buffer's bytes as the reader left them.
    pub left: Seq<u8>,
    /// What the call returned.
    pub outcome: Poll<std::io::Result<usize>>,
}

/// The record of a `poll_read` that was handed a buffer of `room` bytes,
/// left `left` in it and returned `outcome`.
pub open spec fn read_call(room: nat, left: Seq<u8>, outcome: Poll<std::io::Result<usize>>) -> ReadCall {
    ReadCall { room, left, outcome }
}

/// One call on a buffered reader, as its history records it.
pub enum BufReadCall {
    /// A `poll_fill_buf` and what it returned, the bytes offered taken as a
    /// sequence.
    Fill(Poll<std::io::Result<Seq<u8>>>),
    /// A `consume` of this many bytes.
    Consume(usize),
}

/// The record of a `poll_fill_buf` that returned `r`.
pub open spec fn fill_call(r: Poll<std::io::Result<&[u8]>>) -> BufReadCall {
    match r {
        Poll::Pending => BufReadCall::Fill(Poll::Pending),
        Poll::Ready(Ok(s)) => BufReadCall::Fill(Poll::Ready(Ok(s@))),
        Poll::Ready(Err(e)) => BufReadCall::Fill(Poll::Ready(Err(e))),
    }
}

/// The history of the `poll_read` calls on a reader, oldest first. It is a
/// model that proofs speak of, with no value at run time.
pub type ReadHistory = Seq<ReadCall>;

/// The history of the calls on a buffered reader, oldest first. It is a
/// model that proofs speak of, with no value at run time.
pub type BufReadHistory = Seq<BufReadCall>;

/// One call on a writer, as its history records it.
pub enum WriteCall {
    /// A `poll_write` handed these bytes, and what it returned.
    Write(Seq<u8>, Poll<std::io::Result<usize>>),
    /// A `poll_flush` and what it returned.
    Flush(Poll<std::io::Result<()>>),
}

/// The history of the calls on a writer, oldest first. It is a model that
/// proofs speak of, with no value at run time.
pub type WriteHistory = Seq<WriteCall>;

/// Reads bytes asynchronously.
///
/// A reader keeps, as a model, the history of its `poll_read` calls: each
/// call adds its record at the end.
pub trait AsyncRead {
    /// The calls of `poll_read` made so far, oldest first.
    spec fn reads(&self) -> ReadHistory;

    /// Attempts to read data from the underlying I/O source into the buffer,
    /// returning `Ok(<number of bytes read>)` on success, propagating any
    /// underlying errors, or `Poll::Pending` if reading from the I/O source
    /// would block. The bytes read are at the front of `buf`, so there are
    /// never more of them than `buf` holds.
    fn poll_read(&mut self, cx: &mut std::task::Context<'_>, buf: &mut [u8]) -> (r: Poll<
        std::io::Result<usize>,
    >)
        ensures
            final(buf)@.len() == old(buf)@.len(),
            r matches Poll::Ready(Ok(n)) ==> n <= old(buf)@.len(),
            final(self).reads() == old(self).reads().push(
                read_call(old(buf)@.len(), final(buf)@, r),
            ),
    ;
}

/// A corollary to `io::BufRead`: an `AsyncRead` backed by an internal
/// buffer, for the efficient implementation of things like `read_until`.
///
/// A buffered reader keeps, as a model, the history of the calls made on
/// it: each `poll_fill_buf` and each `consume` adds its record at the end.
pub trait AsyncBufRead {
    /// The calls made so far, oldest first.
    spec fn calls(&self) -> BufReadHistory;

    /// Attempts to fill the internal buffer from the underlying reader and
    /// returns the buffered bytes on offer.
    fn poll_fill_buf(&mut self, cx: &mut std::task::Context<'_>) -> (r: Poll<std::io::Result<&[u8]>>)
        ensures
            final(self).calls() == old(self).calls().push(fill_call(r)),
    ;

    /// Marks `amount` of the offered bytes as consumed.
    fn consume(&mut self, amount: usize)
        ensures
            final(self).calls() == old(self).calls().push(BufReadCall::Consume(amount)),
    ;
}

/// Writes bytes asynchronously.
///
/// A writer keeps, as a model, the history of the calls made on it: each
/// `poll_write` and each `poll_flush` adds its record at the end.
pub trait AsyncWrite {
    /// The calls made so far, oldest first.
    spec fn writes(&self) -> WriteHistory;

    /// Attempts to write bytes from `buf` into the underlying I/O
    /// connection, returning `Ok(<number of bytes written>)`: bytes from the
    /// front of `buf`, so never more of them than `buf` holds.
    fn poll_write(&mut self, cx: &mut std::task::Context<'_>, buf: &[u8]) -> (r: Poll<
        std::io::Result<usize>,
    >)
        ensures
            r matches Poll::Ready(Ok(n)) ==> n <= buf@.len(),
            final(self).writes() == old(self).writes().push(WriteCall::Write(buf@, r)),
    ;

    /// Attempts to flush any pending bytes to the underlying I/O connection.
    fn poll_flush(&mut self, cx: &mut std::task::Context<'_>) -> (r: Poll<std::io::Result<()>>)
        ensures
            final(self).writes() == old(self).writes().push(WriteCall::Flush(r)),
    ;
}

} // verus!
