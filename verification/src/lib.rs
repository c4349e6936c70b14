//! A small single-threaded async runtime: a buffered reader, read and write
//! drivers, a waker registry keyed by event, a FIFO work queue and the
//! scheduling decisions of the event loop. The parts that touch the
//! operating system (kqueue, sockets, the clock, raw wakers) drive these
//! verified state machines from the outside.

pub mod executor;
pub mod future;
pub mod io;
pub mod net;
pub mod poll;
pub mod queue;
pub mod reactor;
pub mod task;
pub mod time;

pub use future::Poll;
pub use io::traits::{AsyncBufRead, AsyncRead, AsyncWrite};
