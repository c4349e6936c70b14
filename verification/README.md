# lilfuture

An async, single-threaded runtime built on kqueue (macOS and the BSDs).

- `src/` is the library, proved with Verus: the buffered reader and its
  fill and consume, the steps of `read_to_end`, `read_until` and
  `write_all`, the I/O traits, the FIFO work queue, the event loop of the
  executor as a state machine, the reactor's waker registry and event keys,
  the decisions of non-blocking socket operations and timers, and what to
  ask of kqueue and which of its replies are failures.
- The I/O traits carry a model: each reader, buffered reader and writer
  keeps the history of the calls made on it. The contracts of
  `read_to_end`, `read_until`, the buffered fill and `flush` say, over that
  history, what each call was answered and what follows from it. The
  history exists only in proofs: an implementation outside the verified
  library gives it a body that is never run.
- `app/` is the runtime around it: the `Future` implementations, the kqueue
  poller, TCP sockets, the clock, and the raw task wakers.
- `tests/` exercises the library.
