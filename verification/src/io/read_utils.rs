//! Reading to the end of a source, and reading up to a delimiter.

use vstd::prelude::*;

use crate::future::Poll;
use crate::io::buf::read_count;
use crate::io::traits::{fill_call, read_call, AsyncBufRead, AsyncRead, BufReadCall, ReadCall};

verus! {

/// The number of bytes that each read of `read_to_end_internal` asks for.
pub const CHUNK_SIZE: usize = 1024;

/// `i` is the position of the first `delim` in `bytes`, or the length of
/// `bytes` when no byte is `delim`.
pub open spec fn first_delim_at(bytes: Seq<u8>, delim: u8, i: int) -> bool {
    &&& 0 <= i <= bytes.len()
    &&& forall|j: int| 0 <= j < i ==> bytes[j] != delim
    &&& (i == bytes.len() || bytes[i] == delim)
}

/// No byte of `bytes` is `delim`.
pub open spec fn free_of(bytes: Seq<u8>, delim: u8) -> bool {
    forall|j: int| 0 <= j < bytes.len() ==> bytes[j] != delim
}

/// Takes the outcome of one read of a chunk into `chunk`: `Some` of the
/// result of `read_to_end` when the read ends it, `None` when another chunk
/// is to be read.
///
/// A read of 0 bytes completes with success; a read of `n > 0` bytes
/// appends the first `n` bytes of `chunk` to `buffer` and asks for another
/// read; an error or a pending read is passed on.
pub fn read_to_end_step<E>(
    buffer: &mut Vec<u8>,
    chunk: &[u8],
    outcome: Poll<Result<usize, E>>,
) -> (r: Option<Poll<Result<(), E>>>)
    requires
        outcome matches Poll::Ready(Ok(n)) ==> n <= chunk@.len(),
    ensures
        match outcome {
            Poll::Ready(Ok(n)) => if n == 0 {
                &&& r == Some(Poll::<Result<(), E>>::Ready(Ok(())))
                &&& final(buffer)@ == old(buffer)@
            } else {
                &&& r is None
                &&& final(buffer)@ == old(buffer)@ + chunk@.subrange(0, n as int)
            },
            Poll::Ready(Err(e)) => {
                &&& r == Some(Poll::<Result<(), E>>::Ready(Err(e)))
                &&& final(buffer)@ == old(buffer)@
            },
            Poll::Pending => {
                &&& r == Some(Poll::<Result<(), E>>::Pending)
                &&& final(buffer)@ == old(buffer)@
            },
        },
{
    match outcome {
        Poll::Ready(Ok(n)) => {
            if n == 0 {
                Some(Poll::Ready(Ok(())))
            } else {
                let read = vstd::slice::slice_subrange(chunk, 0, n);
                buffer.extend_from_slice(read);
                proof {
                    assert(buffer@ =~= old(buffer)@ + chunk@.subrange(0, n as int));
                }
                None
            }
        },
        Poll::Ready(Err(e)) => Some(Poll::Ready(Err(e))),
        Poll::Pending => Some(Poll::Pending),
    }
}

/// `run` with `front` appended before the bytes it appends.
pub open spec fn after_bytes<T>(front: Seq<u8>, run: Option<(Seq<u8>, T)>) -> Option<(Seq<u8>, T)> {
    match run {
        Some((rest, end)) => Some((front + rest, end)),
        None => None,
    }
}

/// What a `read_to_end` that made the reads `made` appends, and what it
/// returns; `None` when those are not the reads of such a call.
///
/// Each read is handed a chunk of `CHUNK_SIZE` bytes and answered in turn
/// (see `read_to_end_step`): a read of 0 bytes ends the call with success,
/// an error or a pending read ends it and is passed on, and a read of
/// `n > 0` bytes has the first `n` bytes of the chunk appended and is
/// followed by the next read.
pub open spec fn to_end_run(made: Seq<ReadCall>) -> Option<(Seq<u8>, Poll<std::io::Result<()>>)>
    decreases made.len(),
{
    if made.len() == 0 || made[0].room != CHUNK_SIZE {
        None
    } else {
        match made[0].outcome {
            Poll::Ready(Ok(n)) => if n == 0 {
                if made.len() == 1 {
                    Some((Seq::empty(), Poll::Ready(Ok(()))))
                } else {
                    None
                }
            } else if n <= made[0].left.len() {
                after_bytes(made[0].left.subrange(0, n as int), to_end_run(made.drop_first()))
            } else {
                None
            },
            Poll::Ready(Err(e)) => if made.len() == 1 {
                Some((Seq::empty(), Poll::Ready(Err(e))))
            } else {
                None
            },
            Poll::Pending => if made.len() == 1 {
                Some((Seq::empty(), Poll::Pending))
            } else {
                None
            },
        }
    }
}

/// The reads `made` are those of a `read_to_end` that took the collected
/// bytes from `before` to `after` and returned `r`.
pub open spec fn read_to_end_ran(
    made: Seq<ReadCall>,
    before: Seq<u8>,
    after: Seq<u8>,
    r: Poll<std::io::Result<()>>,
) -> bool {
    match to_end_run(made) {
        Some((appended, result)) => after == before + appended && r == result,
        None => false,
    }
}

/// The bytes one read delivered: the first `n` bytes it left in its
/// buffer, where it returned `Ready(Ok(n))`, and none otherwise.
pub open spec fn delivered_by(call: ReadCall) -> Seq<u8> {
    let n = read_count(call.outcome);
    if n <= call.left.len() {
        call.left.subrange(0, n as int)
    } else {
        call.left
    }
}

/// The bytes the reads `made` delivered, read after read.
pub open spec fn bytes_delivered(made: Seq<ReadCall>) -> Seq<u8>
    decreases made.len(),
{
    if made.len() == 0 {
        Seq::empty()
    } else {
        delivered_by(made[0]) + bytes_delivered(made.drop_first())
    }
}

/// The read returned `Ready(Ok(n))` with `n > 0`: it delivered bytes.
pub open spec fn read_some(call: ReadCall) -> bool {
    call.outcome matches Poll::Ready(Ok(n)) && n > 0
}

/// A `read_to_end` reads until the end of the stream: it hands every read a
/// chunk of `CHUNK_SIZE` bytes, goes on after every read that delivered
/// bytes, and stops at the first read that did not. It succeeds only when
/// that last read returned 0 bytes (the end of the stream), and passes on
/// its error or its pending state otherwise; what it appended is every
/// byte the reads delivered, in order.
pub proof fn lemma_to_end_reads_until_end_of_stream(
    made: Seq<ReadCall>,
    appended: Seq<u8>,
    r: Poll<std::io::Result<()>>,
)
    requires
        to_end_run(made) == Some((appended, r)),
    ensures
        made.len() > 0,
        forall|j: int| 0 <= j < made.len() ==> #[trigger] made[j].room == CHUNK_SIZE,
        forall|j: int| 0 <= j < made.len() - 1 ==> read_some(#[trigger] made[j]),
        match made.last().outcome {
            Poll::Ready(Ok(n)) => n == 0 && r == Poll::<std::io::Result<()>>::Ready(Ok(())),
            Poll::Ready(Err(e)) => r == Poll::<std::io::Result<()>>::Ready(Err(e)),
            Poll::Pending => r is Pending,
        },
        appended == bytes_delivered(made),
    decreases made.len(),
{
    let first = made[0];
    let tail = made.drop_first();
    if read_some(first) {
        let n = read_count(first.outcome);
        let rest = to_end_run(tail).unwrap().0;
        assert(to_end_run(tail) == Some((rest, r)));
        lemma_to_end_reads_until_end_of_stream(tail, rest, r);
        assert(made.last() == tail.last());
        assert forall|j: int| 0 <= j < made.len() implies #[trigger] made[j].room == CHUNK_SIZE by {
            if j > 0 {
                assert(made[j] == tail[j - 1]);
            }
        }
        assert forall|j: int| 0 <= j < made.len() - 1 implies read_some(#[trigger] made[j]) by {
            if j > 0 {
                assert(made[j] == tail[j - 1]);
            }
        }
    } else {
        assert(made.len() == 1);
        assert(tail.len() == 0);
        assert(delivered_by(first) =~= Seq::<u8>::empty());
        assert(bytes_delivered(tail) == Seq::<u8>::empty());
        assert(appended == Seq::<u8>::empty());
        assert(bytes_delivered(made) =~= Seq::<u8>::empty() + Seq::<u8>::empty());
    }
}

/// Reads from `reader` into `buffer`, `CHUNK_SIZE` bytes at a time, until a
/// read returns 0 bytes (success), fails, or would block.
///
/// Each read hands the reader a chunk of `CHUNK_SIZE` zero bytes; the reads
/// made are added to the reader's history and are those of `to_end_run`.
/// Whatever the outcome, the bytes `buffer` held are kept at its front,
/// followed by the bytes each read delivered.
pub fn read_to_end_internal<R: AsyncRead + ?Sized>(
    buffer: &mut Vec<u8>,
    reader: &mut R,
    cx: &mut std::task::Context<'_>,
) -> (r: Poll<std::io::Result<()>>)
    ensures
        old(reader).reads().is_prefix_of(final(reader).reads()),
        read_to_end_ran(
            final(reader).reads().skip(old(reader).reads().len() as int),
            old(buffer)@,
            final(buffer)@,
            r,
        ),
        ({
            let made = final(reader).reads().skip(old(reader).reads().len() as int);
            &&& made.len() > 0
            &&& forall|j: int| 0 <= j < made.len() - 1 ==> read_some(#[trigger] made[j])
            &&& (r == Poll::<std::io::Result<()>>::Ready(Ok(())) <==> made.last().outcome
                == Poll::<std::io::Result<usize>>::Ready(Ok(0usize)))
            &&& final(buffer)@ == old(buffer)@ + bytes_delivered(made)
        }),
{
    let ghost start = reader.reads();
    let ghost mut made: Seq<ReadCall> = Seq::empty();
    let ghost mut appended: Seq<u8> = Seq::empty();
    proof {
        assert(buffer@ =~= old(buffer)@ + appended);
        assert(start =~= start + made);
        assert forall|tail: Seq<ReadCall>| #[trigger]
            to_end_run(made + tail) == after_bytes(appended, to_end_run(tail)) by {
            assert(made + tail =~= tail);
            match to_end_run(tail) {
                Some((rest, result)) => {
                    assert(appended + rest =~= rest);
                },
                None => {},
            }
        }
    }
    loop
        invariant
            reader.reads() == start + made,
            start == old(reader).reads(),
            buffer@ == old(buffer)@ + appended,
            forall|tail: Seq<ReadCall>| #[trigger]
                to_end_run(made + tail) == after_bytes(appended, to_end_run(tail)),
        decreases usize::MAX - buffer.len(),
    {
        let mut chunk: Vec<u8> = vec![0u8; CHUNK_SIZE];
        let outcome = reader.poll_read(cx, chunk.as_mut_slice());
        let ghost record = read_call(CHUNK_SIZE as nat, chunk@, outcome);
        let ghost last: Seq<ReadCall> = seq![record];
        let ghost before = buffer@;
        proof {
            assert(reader.reads() =~= start + (made + last));
            assert((start + (made + last)).skip(start.len() as int) =~= made + last);
            assert(start.is_prefix_of(start + (made + last)));
            assert(to_end_run(made + last) == after_bytes(appended, to_end_run(last)));
            assert(appended + Seq::<u8>::empty() =~= appended);
        }
        match read_to_end_step(buffer, chunk.as_slice(), outcome) {
            Some(done) => {
                proof {
                    let m = made + last;
                    let (all, result) = to_end_run(m).unwrap();
                    lemma_to_end_reads_until_end_of_stream(m, all, result);
                }
                return done;
            },
            None => {
                proof {
                    let piece = buffer@.subrange(before.len() as int, buffer@.len() as int);
                    assert(piece =~= record.left.subrange(0, piece.len() as int));
                    assert forall|tail: Seq<ReadCall>| #[trigger]
                        to_end_run(made + last + tail) == after_bytes(
                            appended + piece,
                            to_end_run(tail),
                        ) by {
                        assert(made + last + tail =~= made + (last + tail));
                        assert((last + tail).drop_first() =~= tail);
                        assert((last + tail)[0] == record);
                        match to_end_run(tail) {
                            Some((rest, result)) => {
                                assert(appended + (piece + rest) =~= appended + piece + rest);
                            },
                            None => {},
                        }
                    }
                    made = made + last;
                    appended = appended + piece;
                    assert(buffer@ =~= old(buffer)@ + appended);
                    assert(buffer.len() > before.len());
                }
            },
        }
    }
}

/// The future of `read_to_end`: reads everything `reader` offers into
/// `buf`.
pub struct ReadToEnd<'a, R: AsyncRead + ?Sized> {
    buf: &'a mut Vec<u8>,
    reader: &'a mut R,
}

impl<'a, R: AsyncRead + ?Sized> ReadToEnd<'a, R> {
    /// Starts reading from `reader` into `buf`.
    pub fn new(reader: &'a mut R, buf: &'a mut Vec<u8>) -> (r: Self)
        ensures
            r.buffer() == old(buf)@,
    {
        ReadToEnd { buf, reader }
    }

    /// The bytes collected so far: those `buf` held, then those read.
    pub closed spec fn buffer(&self) -> Seq<u8> {
        self.buf@
    }

    /// The reads made so far on the reader.
    pub closed spec fn reader_reads(&self) -> Seq<ReadCall> {
        self.reader.reads()
    }

    /// Polls the read (see `read_to_end_internal`): the reads this poll
    /// makes are added to the reader's history and are those of a
    /// `read_to_end`, which appends to the bytes collected so far.
    pub fn poll(&mut self, cx: &mut std::task::Context<'_>) -> (r: Poll<std::io::Result<()>>)
        ensures
            old(self).reader_reads().is_prefix_of(final(self).reader_reads()),
            read_to_end_ran(
                final(self).reader_reads().skip(old(self).reader_reads().len() as int),
                old(self).buffer(),
                final(self).buffer(),
                r,
            ),
            ({
                let made = final(self).reader_reads().skip(old(self).reader_reads().len() as int);
                &&& made.len() > 0
                &&& forall|j: int| 0 <= j < made.len() - 1 ==> read_some(#[trigger] made[j])
                &&& (r == Poll::<std::io::Result<()>>::Ready(Ok(())) <==> made.last().outcome
                    == Poll::<std::io::Result<usize>>::Ready(Ok(0usize)))
                &&& final(self).buffer() == old(self).buffer() + bytes_delivered(made)
            }),
    {
        read_to_end_internal(self.buf, self.reader, cx)
    }
}

/// The error of a `read_until` that finds the source at its end.
///
/// Calls `std::io::Error::new` with the kind `UnexpectedEof` and the
/// message "eof"; nothing is claimed of the error it builds.
#[verifier::external_body]
fn unexpected_eof() -> std::io::Error {
    std::io::Error::new(std::io::ErrorKind::UnexpectedEof, "eof")
}

/// What a `read_until` does with the bytes a buffered reader offers.
pub enum UntilStep {
    /// The reader offered no byte: the read fails with an unexpected end of
    /// stream.
    EndOfStream,
    /// The bytes before the delimiter were appended; this many bytes are to
    /// be consumed from the reader (those bytes and the delimiter), and the
    /// read is complete.
    Found(usize),
    /// No byte offered is the delimiter: all were appended, this many (all
    /// of them) are to be consumed, and the read goes on.
    NotFound(usize),
}

/// Takes the bytes a buffered reader offers after a fill.
///
/// No byte offered means the end of the stream. Otherwise the bytes before
/// the first `delim` are appended to `buf`, and they are to be consumed
/// with the delimiter; when no byte is `delim`, all of them are appended and
/// are to be consumed, and the read goes on.
pub fn read_until_step(buf: &mut Vec<u8>, available: &[u8], delim: u8) -> (r: UntilStep)
    ensures
        available@.len() == 0 ==> r is EndOfStream && final(buf)@ == old(buf)@,
        available@.len() > 0 ==> exists|i: int|
            {
                &&& first_delim_at(available@, delim, i)
                &&& final(buf)@ == old(buf)@ + available@.subrange(0, i)
                &&& i < available@.len() ==> r == UntilStep::Found((i + 1) as usize)
                &&& i == available@.len() ==> r == UntilStep::NotFound(available@.len() as usize)
            },
{
    if available.len() == 0 {
        return UntilStep::EndOfStream;
    }
    let mut i: usize = 0;
    while i < available.len()
        invariant
            0 <= i <= available@.len(),
            forall|j: int| 0 <= j < i ==> available@[j] != delim,
        ensures
            first_delim_at(available@, delim, i as int),
        decreases available@.len() - i,
    {
        if available[i] == delim {
            break;
        }
        i = i + 1;
    }
    let before = vstd::slice::slice_subrange(available, 0, i);
    buf.extend_from_slice(before);
    proof {
        assert(buf@ =~= old(buf)@ + available@.subrange(0, i as int));
    }
    if i < available.len() {
        UntilStep::Found(i + 1)
    } else {
        UntilStep::NotFound(i)
    }
}

/// The position of the first `delim` in `bytes`, or the length of `bytes`
/// when no byte is `delim`.
pub open spec fn delim_index(bytes: Seq<u8>, delim: u8) -> int
    decreases bytes.len(),
{
    if bytes.len() == 0 || bytes[0] == delim {
        0
    } else {
        1 + delim_index(bytes.drop_first(), delim)
    }
}

/// `delim_index` is the position that `first_delim_at` describes, and no
/// other position is.
pub proof fn lemma_delim_index(bytes: Seq<u8>, delim: u8, i: int)
    ensures
        first_delim_at(bytes, delim, delim_index(bytes, delim)),
        first_delim_at(bytes, delim, i) ==> i == delim_index(bytes, delim),
    decreases bytes.len(),
{
    if bytes.len() > 0 && bytes[0] != delim {
        let rest = bytes.drop_first();
        lemma_delim_index(rest, delim, i - 1);
        let k = delim_index(bytes, delim);
        assert forall|j: int| 0 <= j < k implies bytes[j] != delim by {
            if j > 0 {
                assert(bytes[j] == rest[j - 1]);
            }
        }
        if k < bytes.len() {
            assert(bytes[k] == rest[k - 1]);
        }
        if first_delim_at(bytes, delim, i) {
            assert(i > 0);
            assert forall|j: int| 0 <= j < i - 1 implies rest[j] != delim by {
                assert(rest[j] == bytes[j + 1]);
            }
            if i < bytes.len() {
                assert(rest[i - 1] == bytes[i]);
            }
        }
    }
}

/// How a `read_until` ends.
pub enum UntilEnd {
    /// A fill was pending.
    Pending,
    /// A fill failed with this error.
    Failed(std::io::Error),
    /// A fill offered no byte: the stream ended before the delimiter.
    EndOfStream,
    /// The delimiter was found and consumed.
    Done,
}

/// What a `read_until` for `delim` that made the calls `made` on a buffered
/// reader appends, and how it ends; `None` when those are not the calls of
/// such a read.
///
/// Each fill is answered in turn. A pending fill, a failed fill and a fill
/// that offers no byte end the read, with nothing consumed. A fill whose
/// bytes hold the delimiter at `i` has the bytes before it appended, `i + 1`
/// bytes (those and the delimiter) consumed, and ends the read. A fill
/// without the delimiter has all its bytes appended and consumed, and the
/// read goes on with the next fill.
pub open spec fn until_run(made: Seq<BufReadCall>, delim: u8) -> Option<(Seq<u8>, UntilEnd)>
    decreases made.len(),
{
    if made.len() == 0 {
        None
    } else {
        match made[0] {
            BufReadCall::Fill(Poll::Pending) => if made.len() == 1 {
                Some((Seq::empty(), UntilEnd::Pending))
            } else {
                None
            },
            BufReadCall::Fill(Poll::Ready(Err(e))) => if made.len() == 1 {
                Some((Seq::empty(), UntilEnd::Failed(e)))
            } else {
                None
            },
            BufReadCall::Fill(Poll::Ready(Ok(offered))) => {
                let i = delim_index(offered, delim);
                if offered.len() == 0 {
                    if made.len() == 1 {
                        Some((Seq::empty(), UntilEnd::EndOfStream))
                    } else {
                        None
                    }
                } else if offered.len() > usize::MAX {
                    None
                } else if i < offered.len() {
                    if made.len() == 2 && made[1] == BufReadCall::Consume((i + 1) as usize) {
                        Some((offered.subrange(0, i), UntilEnd::Done))
                    } else {
                        None
                    }
                } else if made.len() >= 2 && made[1] == BufReadCall::Consume(
                    offered.len() as usize,
                ) {
                    after_bytes(offered, until_run(made.skip(2), delim))
                } else {
                    None
                }
            },
            BufReadCall::Consume(_) => None,
        }
    }
}

/// What a read that ended as `end` returns: pending, the fill's error, an
/// error for an unexpected end of stream, or success once the delimiter
/// was found.
pub open spec fn ends_as(end: UntilEnd, r: Poll<std::io::Result<()>>) -> bool {
    match end {
        UntilEnd::Pending => r is Pending,
        UntilEnd::Failed(e) => r == Poll::<std::io::Result<()>>::Ready(Err(e)),
        UntilEnd::EndOfStream => r matches Poll::Ready(Err(_)),
        UntilEnd::Done => r == Poll::<std::io::Result<()>>::Ready(Ok(())),
    }
}

/// The calls `made` on a buffered reader are those of a `read_until` for
/// `delim` that took the collected bytes from `before` to `after` and
/// returned `r`.
pub open spec fn read_until_ran(
    made: Seq<BufReadCall>,
    delim: u8,
    before: Seq<u8>,
    after: Seq<u8>,
    r: Poll<std::io::Result<()>>,
) -> bool {
    match until_run(made, delim) {
        Some((appended, end)) => after == before + appended && ends_as(end, r),
        None => false,
    }
}

/// The bytes that the consumptions among `made` took: a `Consume(n)` right
/// after a fill that offered `s` takes the first `n` bytes of `s` (all of
/// them if `n` passes its end).
pub open spec fn consumed_bytes(made: Seq<BufReadCall>) -> Seq<u8>
    decreases made.len(),
{
    if made.len() < 2 {
        Seq::empty()
    } else {
        match (made[0], made[1]) {
            (BufReadCall::Fill(Poll::Ready(Ok(s))), BufReadCall::Consume(n)) => {
                let taken = if n <= s.len() {
                    s.subrange(0, n as int)
                } else {
                    s
                };
                taken + consumed_bytes(made.skip(2))
            },
            _ => consumed_bytes(made.drop_first()),
        }
    }
}

/// A `read_until` that completes has consumed exactly the bytes it
/// appended followed by the delimiter, and none of the bytes it appended is
/// the delimiter.
pub proof fn lemma_until_consumes_through_delim(
    made: Seq<BufReadCall>,
    delim: u8,
    appended: Seq<u8>,
)
    requires
        until_run(made, delim) == Some((appended, UntilEnd::Done)),
    ensures
        free_of(appended, delim),
        consumed_bytes(made) == appended.push(delim),
    decreases made.len(),
{
    if let BufReadCall::Fill(Poll::Ready(Ok(offered))) = made[0] {
        let i = delim_index(offered, delim);
        lemma_delim_index(offered, delim, i);
        if i < offered.len() {
            assert(made[1] == BufReadCall::Consume((i + 1) as usize));
            assert(consumed_bytes(made.skip(2)) == Seq::<u8>::empty());
            assert(consumed_bytes(made) == offered.subrange(0, i + 1) + consumed_bytes(
                made.skip(2),
            ));
            assert(offered.subrange(0, i + 1) =~= offered.subrange(0, i).push(delim));
            assert(consumed_bytes(made) =~= appended.push(delim));
        } else {
            assert(made[1] == BufReadCall::Consume(offered.len() as usize));
            let rest = until_run(made.skip(2), delim).unwrap().0;
            assert(until_run(made.skip(2), delim) == Some((rest, UntilEnd::Done)));
            assert(appended == offered + rest);
            lemma_until_consumes_through_delim(made.skip(2), delim, rest);
            assert(offered.subrange(0, offered.len() as int) =~= offered);
            assert(consumed_bytes(made) == offered.subrange(0, offered.len() as int)
                + consumed_bytes(made.skip(2)));
            assert(consumed_bytes(made) =~= appended.push(delim));
            assert forall|j: int| 0 <= j < appended.len() implies appended[j] != delim by {
                if j >= offered.len() {
                    assert(appended[j] == rest[j - offered.len()]);
                }
            }
        }
    }
}

/// A `read_until` reads up to the first delimiter of the stream: where the
/// bytes it consumed are the front of `stream`, a read that completes has
/// appended the bytes of `stream` before its first delimiter.
pub proof fn lemma_until_stops_at_first_delim(
    made: Seq<BufReadCall>,
    delim: u8,
    appended: Seq<u8>,
    stream: Seq<u8>,
)
    requires
        until_run(made, delim) == Some((appended, UntilEnd::Done)),
        consumed_bytes(made).is_prefix_of(stream),
    ensures
        first_delim_at(stream, delim, appended.len() as int),
        appended == stream.subrange(0, appended.len() as int),
{
    lemma_until_consumes_through_delim(made, delim, appended);
    let k = appended.len() as int;
    assert(stream[k] == appended.push(delim)[k]);
    assert forall|j: int| 0 <= j < k implies stream[j] != delim by {
        assert(stream[j] == appended.push(delim)[j]);
    }
    assert(appended =~= stream.subrange(0, k)) by {
        assert forall|j: int| 0 <= j < k implies appended[j] == stream[j] by {
            assert(stream[j] == appended.push(delim)[j]);
        }
    }
}

/// The call at `k` of `made`, if it is a consumption, comes right after a
/// fill that offered bytes and takes no more of them than were offered.
pub open spec fn consumes_within_offer(made: Seq<BufReadCall>, k: int) -> bool {
    match made[k] {
        BufReadCall::Consume(n) => k > 0 && match made[k - 1] {
            BufReadCall::Fill(Poll::Ready(Ok(s))) => n <= s.len(),
            _ => false,
        },
        _ => true,
    }
}

/// A `read_until` never consumes bytes it was not offered: each of its
/// consumptions follows a fill and takes at most the bytes that fill
/// offered.
pub proof fn lemma_until_consumes_only_offered(made: Seq<BufReadCall>, delim: u8)
    requires
        until_run(made, delim) is Some,
    ensures
        forall|k: int| 0 <= k < made.len() ==> #[trigger] consumes_within_offer(made, k),
    decreases made.len(),
{
    if let BufReadCall::Fill(Poll::Ready(Ok(offered))) = made[0] {
        let i = delim_index(offered, delim);
        lemma_delim_index(offered, delim, i);
        if offered.len() > 0 && i == offered.len() {
            let rest = made.skip(2);
            lemma_until_consumes_only_offered(rest, delim);
            assert forall|k: int| 0 <= k < made.len() implies #[trigger] consumes_within_offer(
                made,
                k,
            ) by {
                if k >= 2 {
                    assert(made[k] == rest[k - 2]);
                    assert(consumes_within_offer(rest, k - 2));
                    if k >= 3 {
                        assert(made[k - 1] == rest[k - 3]);
                    }
                }
            }
        }
    }
}

/// A fill that offered `offered`, followed by the consumption of all of it.
pub open spec fn fill_consumed_whole(offered: Seq<u8>) -> Seq<BufReadCall> {
    seq![BufReadCall::Fill(Poll::Ready(Ok(offered))), BufReadCall::Consume(offered.len() as usize)]
}

/// A fill without the delimiter, appended and consumed whole, lets the read
/// go on: whatever calls follow, the read appends the offered bytes before
/// what those calls append.
proof fn lemma_fill_without_delim(
    made: Seq<BufReadCall>,
    appended: Seq<u8>,
    offered: Seq<u8>,
    delim: u8,
)
    requires
        0 < offered.len() <= usize::MAX,
        delim_index(offered, delim) == offered.len(),
        forall|tail: Seq<BufReadCall>| #[trigger]
            until_run(made + tail, delim) == after_bytes(appended, until_run(tail, delim)),
    ensures
        forall|tail: Seq<BufReadCall>| #[trigger]
            until_run(made + fill_consumed_whole(offered) + tail, delim) == after_bytes(
                appended + offered,
                until_run(tail, delim),
            ),
{
    let step = fill_consumed_whole(offered);
    assert forall|tail: Seq<BufReadCall>| #[trigger]
        until_run(made + step + tail, delim) == after_bytes(
            appended + offered,
            until_run(tail, delim),
        ) by {
        assert(made + step + tail =~= made + (step + tail));
        assert((step + tail).skip(2) =~= tail);
        assert((step + tail)[0] == step[0]);
        assert((step + tail)[1] == step[1]);
        match until_run(tail, delim) {
            Some((rest, end)) => {
                assert(appended + (offered + rest) =~= appended + offered + rest);
            },
            None => {},
        }
    }
}

/// Reads from `buf_read` into `buf` up to the first `delim` of the
/// stream.
///
/// The calls made on `buf_read` are added to its history, and they are
/// those of `until_run`: each fill is answered by `read_until_step`. A
/// pending fill or an error is passed on (the bytes appended before it stay
/// appended and consumed), a fill that offers no byte is an unexpected end
/// of stream, a fill without the delimiter is appended and consumed whole
/// and the read goes on, and a fill with the delimiter has the bytes before
/// it appended, those and the delimiter consumed, and completes the read.
pub fn read_until_internal<R: AsyncBufRead + ?Sized>(
    buf_read: &mut R,
    buf: &mut Vec<u8>,
    delim: u8,
    cx: &mut std::task::Context<'_>,
) -> (r: Poll<std::io::Result<()>>)
    ensures
        old(buf_read).calls().is_prefix_of(final(buf_read).calls()),
        read_until_ran(
            final(buf_read).calls().skip(old(buf_read).calls().len() as int),
            delim,
            old(buf)@,
            final(buf)@,
            r,
        ),
{
    let ghost start = buf_read.calls();
    let ghost mut made: Seq<BufReadCall> = Seq::empty();
    let ghost mut appended: Seq<u8> = Seq::empty();
    proof {
        assert(buf@ =~= old(buf)@ + appended);
        assert(start =~= start + made);
        assert forall|tail: Seq<BufReadCall>| #[trigger]
            until_run(made + tail, delim) == after_bytes(appended, until_run(tail, delim)) by {
            assert(made + tail =~= tail);
            match until_run(tail, delim) {
                Some((rest, end)) => {
                    assert(appended + rest =~= rest);
                },
                None => {},
            }
        }
    }
    loop
        invariant
            buf_read.calls() == start + made,
            start == old(buf_read).calls(),
            buf@ == old(buf)@ + appended,
            forall|tail: Seq<BufReadCall>| #[trigger]
                until_run(made + tail, delim) == after_bytes(appended, until_run(tail, delim)),
        decreases usize::MAX - buf.len(),
    {
        let ghost before = buf@;
        let fill = buf_read.poll_fill_buf(cx);
        let ghost record = fill_call(fill);
        let ghost last: Seq<BufReadCall> = seq![record];
        proof {
            assert((start + made).push(record) =~= start + (made + last));
            assert(until_run(made + last, delim) == after_bytes(appended, until_run(last, delim)));
            assert((start + (made + last)).skip(start.len() as int) =~= made + last);
            assert(start.is_prefix_of(start + (made + last)));
            assert(appended + Seq::<u8>::empty() =~= appended);
        }
        match fill {
            Poll::Pending => {
                return Poll::Pending;
            },
            Poll::Ready(Ok(slice)) => {
                let ghost offered = slice@;
                proof {
                    assert(offered.len() == slice.len());
                }
                match read_until_step(buf, slice, delim) {
                    UntilStep::EndOfStream => {
                        return Poll::Ready(Err(unexpected_eof()));
                    },
                    UntilStep::Found(amount) => {
                        buf_read.consume(amount);
                        proof {
                            let i = choose|i: int|
                                first_delim_at(offered, delim, i) && buf@ == before
                                    + offered.subrange(0, i);
                            lemma_delim_index(offered, delim, i);
                            let step = seq![record, BufReadCall::Consume(amount)];
                            assert(buf_read.calls() =~= start + (made + step));
                            assert((start + (made + step)).skip(start.len() as int) =~= made
                                + step);
                            assert(start.is_prefix_of(start + (made + step)));
                            assert(until_run(made + step, delim) == after_bytes(
                                appended,
                                until_run(step, delim),
                            ));
                            assert(step[1] == BufReadCall::Consume((i + 1) as usize));
                            assert(buf@ =~= old(buf)@ + (appended + offered.subrange(0, i)));
                        }
                        return Poll::Ready(Ok(()));
                    },
                    UntilStep::NotFound(amount) => {
                        buf_read.consume(amount);
                        proof {
                            let i = choose|i: int|
                                first_delim_at(offered, delim, i) && buf@ == before
                                    + offered.subrange(0, i);
                            lemma_delim_index(offered, delim, i);
                            assert(offered.subrange(0, i) =~= offered);
                            lemma_fill_without_delim(made, appended, offered, delim);
                            let step = fill_consumed_whole(offered);
                            assert(buf_read.calls() =~= start + (made + step));
                            made = made + step;
                            appended = appended + offered;
                            assert(buf@ =~= old(buf)@ + appended);
                            assert(buf.len() > before.len());
                        }
                    },
                }
            },
            Poll::Ready(Err(err)) => {
                return Poll::Ready(Err(err));
            },
        }
    }
}

} // verus!

verus! {

/// The future of `read_until`: reads from `buf_read` into `buf` up to
/// `delim`.
pub struct ReadUntil<'a, R: AsyncBufRead + ?Sized> {
    delim: u8,
    buf: &'a mut Vec<u8>,
    buf_read: &'a mut R,
}

impl<'a, R: AsyncBufRead + ?Sized> ReadUntil<'a, R> {
    /// Starts reading from `buf_read` into `buf` up to `delim`.
    pub fn new(buf_read: &'a mut R, buf: &'a mut Vec<u8>, delim: u8) -> (r: Self)
        ensures
            r.buffer() == old(buf)@,
            r.delim() == delim,
    {
        ReadUntil { delim, buf, buf_read }
    }

    /// The bytes collected so far.
    pub closed spec fn buffer(&self) -> Seq<u8> {
        self.buf@
    }

    /// The delimiter.
    pub closed spec fn delim(&self) -> u8 {
        self.delim
    }

    /// The calls made so far on the buffered reader.
    pub closed spec fn reader_calls(&self) -> Seq<BufReadCall> {
        self.buf_read.calls()
    }

    /// Polls the read (see `read_until_internal`): the calls this poll
    /// makes on the buffered reader are added to its history and are those
    /// of a `read_until`, which appends to the bytes collected so far.
    pub fn poll(&mut self, cx: &mut std::task::Context<'_>) -> (r: Poll<std::io::Result<()>>)
        ensures
            final(self).delim() == old(self).delim(),
            old(self).reader_calls().is_prefix_of(final(self).reader_calls()),
            read_until_ran(
                final(self).reader_calls().skip(old(self).reader_calls().len() as int),
                old(self).delim(),
                old(self).buffer(),
                final(self).buffer(),
                r,
            ),
    {
        read_until_internal(self.buf_read, self.buf, self.delim, cx)
    }
}

} // verus!
