use std::sync::Arc;
use std::task::{Context, Wake, Waker};

use lilfuture::io::buf::{BufReader, Filled, BUF_SIZE};
use lilfuture::io::traits::ReadHistory;
use lilfuture::io::AsyncRead;
use lilfuture::Poll;

struct NoopWake;

impl Wake for NoopWake {
    fn wake(self: Arc<Self>) {}
}

fn noop_waker() -> Waker {
    Waker::from(Arc::new(NoopWake))
}

/// A reader that hands out the given chunks, one per read, then end of
/// stream.
struct Chunks {
    chunks: Vec<Vec<u8>>,
}

impl AsyncRead for Chunks {
    fn reads(&self) -> ReadHistory {
        panic!("the read history is a model for proofs, with no run-time value")
    }

    fn poll_read(&mut self, _cx: &mut Context<'_>, buf: &mut [u8]) -> Poll<std::io::Result<usize>> {
        if self.chunks.is_empty() {
            return Poll::Ready(Ok(0));
        }
        let chunk = self.chunks.remove(0);
        buf[..chunk.len()].copy_from_slice(&chunk);
        Poll::Ready(Ok(chunk.len()))
    }
}

#[test]
fn new_reader_is_empty_and_zeroed() {
    let r = BufReader::new();
    let unfilled = r.unfilled();
    assert_eq!(unfilled.len(), BUF_SIZE);
    assert!(unfilled.iter().all(|b| *b == 0));
    assert!(r.window().is_empty());
    assert!(r.can_consume(0));
    assert!(!r.can_consume(1));
}

#[test]
fn on_read_fills_and_offers_the_filled_bytes() {
    let mut r = BufReader::new();
    let mut region = r.unfilled();
    region[..5].copy_from_slice(b"hello");
    let out = r.on_read::<()>(region, Poll::Ready(Ok(5)));
    assert!(matches!(out, Poll::Ready(Ok(Filled::Window))));
    assert_eq!(r.window(), b"hello");
    assert_eq!(r.unfilled().len(), BUF_SIZE - 5);
    // a later read is appended after the buffered bytes
    let mut region = r.unfilled();
    region[..3].copy_from_slice(b"abc");
    let out = r.on_read::<()>(region, Poll::Ready(Ok(3)));
    assert!(matches!(out, Poll::Ready(Ok(Filled::Window))));
    assert_eq!(r.window(), b"helloabc");
}

#[test]
fn on_read_passes_on_other_outcomes() {
    let mut r = BufReader::new();
    let region = r.unfilled();
    assert!(matches!(r.on_read::<()>(region, Poll::Ready(Ok(0))), Poll::Ready(Ok(Filled::Nothing))));
    let region = r.unfilled();
    assert!(matches!(r.on_read::<u8>(region, Poll::Ready(Err(7))), Poll::Ready(Err(7))));
    let region = r.unfilled();
    assert!(matches!(r.on_read::<()>(region, Poll::Pending), Poll::Pending));
    assert_eq!(r.unfilled().len(), BUF_SIZE);
    assert!(r.window().is_empty());
}

#[test]
fn on_read_keeps_what_the_reader_left_in_the_region() {
    let mut r = BufReader::new();
    let mut region = r.unfilled();
    region[0] = 9;
    // the reader scribbled but reported nothing read: nothing is offered
    let _ = r.on_read::<()>(region, Poll::Pending);
    assert!(r.window().is_empty());
    assert_eq!(r.unfilled()[0], 9);
}

#[test]
fn consume_all_empties_the_buffer() {
    let mut r = BufReader::new();
    let mut region = r.unfilled();
    region[..4].copy_from_slice(b"abcd");
    let _ = r.on_read::<()>(region, Poll::Ready(Ok(4)));
    assert!(r.can_consume(4));
    r.consume(4);
    assert_eq!(r.unfilled().len(), BUF_SIZE);
    assert!(r.window().is_empty());
}

#[test]
fn consume_part_moves_the_rest_to_the_front() {
    let mut r = BufReader::new();
    let mut region = r.unfilled();
    region[..6].copy_from_slice(b"ab\ncde");
    let _ = r.on_read::<()>(region, Poll::Ready(Ok(6)));
    assert!(r.can_consume(3));
    r.consume(3);
    assert_eq!(r.window(), b"cde");
    assert_eq!(r.unfilled().len(), BUF_SIZE - 3);
}

#[test]
fn consume_past_the_filled_bytes_is_refused() {
    let mut r = BufReader::new();
    let mut region = r.unfilled();
    region[..3].copy_from_slice(b"xyz");
    let _ = r.on_read::<()>(region, Poll::Ready(Ok(3)));
    assert!(!r.can_consume(4));
    assert!(r.can_consume(3));
    assert!(r.can_consume(2));
}

#[test]
fn consume_keeps_every_unconsumed_byte() {
    let mut r = BufReader::new();
    let mut region = r.unfilled();
    for (i, b) in region.iter_mut().enumerate() {
        *b = (i % 251) as u8;
    }
    let _ = r.on_read::<()>(region, Poll::Ready(Ok(1000)));
    assert!(r.can_consume(100));
    r.consume(100);
    let expected: Vec<u8> = (100..1000).map(|i| (i % 251) as u8).collect();
    assert_eq!(r.window(), &expected[..]);
    assert_eq!(r.unfilled().len(), BUF_SIZE - 900);
}

#[test]
fn consume_of_most_of_a_large_fill_is_allowed() {
    let mut r = BufReader::new();
    let mut region = r.unfilled();
    for (i, b) in region[..700].iter_mut().enumerate() {
        *b = (i % 251) as u8;
    }
    let _ = r.on_read::<()>(region, Poll::Ready(Ok(700)));
    assert!(r.can_consume(600));
    r.consume(600);
    let expected: Vec<u8> = (600..700).map(|i| (i % 251) as u8).collect();
    assert_eq!(r.window(), &expected[..]);
}

#[test]
fn consuming_in_two_steps_equals_consuming_at_once() {
    let fill = |r: &mut BufReader<BUF_SIZE>| {
        let mut region = r.unfilled();
        region[..6].copy_from_slice(b"012345");
        let _ = r.on_read::<()>(region, Poll::Ready(Ok(6)));
    };
    let mut split = BufReader::new();
    fill(&mut split);
    split.consume(3);
    split.consume(1);
    let mut whole = BufReader::new();
    fill(&mut whole);
    whole.consume(4);
    assert_eq!(split.window(), b"45");
    assert_eq!(whole.window(), b"45");
    let mut zero = BufReader::new();
    fill(&mut zero);
    zero.consume(0);
    assert_eq!(zero.window(), b"012345");
}

#[test]
fn poll_fill_buf_offers_the_unconsumed_bytes() {
    let waker = noop_waker();
    let mut cx = Context::from_waker(&waker);
    let mut reader = Chunks { chunks: vec![b"one\n".to_vec(), b"two".to_vec()] };
    let mut r = BufReader::new();
    match r.poll_fill_buf(&mut reader, &mut cx) {
        Poll::Ready(Ok(window)) => assert_eq!(window, b"one\n"),
        _ => panic!("expected the bytes read"),
    }
    r.consume(4);
    match r.poll_fill_buf(&mut reader, &mut cx) {
        Poll::Ready(Ok(window)) => assert_eq!(window, b"two"),
        _ => panic!("expected the bytes read"),
    }
    match r.poll_fill_buf(&mut reader, &mut cx) {
        Poll::Ready(Ok(window)) => assert!(window.is_empty()),
        _ => panic!("expected end of stream"),
    }
}

#[test]
fn another_name_is_the_same_reader() {
    let r: lilfuture::io::AsyncBufferedReader = lilfuture::io::AsyncBufferedReader::new();
    assert_eq!(r.unfilled().len(), BUF_SIZE);
}
