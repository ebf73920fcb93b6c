use io_tubes::traits::{
    Poll, Stream, Traffic, TubeBufRead, TubeError, TubeRead, TubeWrite,
};
use io_tubes::tubes::Loopback;

/// A source that is never ready.
struct Never;

impl Stream for Never {
    // for proofs only: never run
    fn view(&self) -> Traffic {
        unreachable!()
    }

    fn wf(&self) -> bool {
        true
    }
}

impl TubeRead for Never {
    fn poll_read(&mut self, _buf: &mut Vec<u8>, _max_len: usize) -> Poll<Result<usize, TubeError>> {
        Poll::Pending
    }
}

#[test]
fn loopback_hands_back_what_was_written() {
    let mut pipe = Loopback::new(8);
    assert!(matches!(pipe.poll_write(b"hello"), Poll::Ready(Ok(5))));
    let mut buf = Vec::new();
    assert!(matches!(pipe.poll_read(&mut buf, 3), Poll::Ready(Ok(3))));
    assert_eq!(buf, b"hel");
    assert!(matches!(pipe.poll_fill_buf(), Poll::Ready(Ok(b"lo"))));
    pipe.consume(2);
    assert!(matches!(pipe.poll_fill_buf(), Poll::Pending));
}

#[test]
fn loopback_takes_no_more_than_it_holds() {
    let mut pipe = Loopback::new(4);
    assert!(matches!(pipe.poll_write(b""), Poll::Ready(Ok(0))));
    assert!(matches!(pipe.poll_write(b"abcdef"), Poll::Ready(Ok(4))));
    assert!(matches!(pipe.poll_write(b"ef"), Poll::Pending));
    assert!(matches!(pipe.poll_write(b""), Poll::Ready(Ok(0))));
    pipe.consume(0);
    assert!(matches!(pipe.poll_fill_buf(), Poll::Ready(Ok(b"abcd"))));
    pipe.consume(1);
    assert!(matches!(pipe.poll_write(b"ef"), Poll::Ready(Ok(1))));
    assert!(matches!(pipe.poll_flush(), Poll::Ready(Ok(()))));
    assert!(matches!(pipe.poll_fill_buf(), Poll::Ready(Ok(b"bcde"))));
    let mut none = Loopback::new(0);
    assert!(matches!(none.poll_write(b"a"), Poll::Pending));
}

#[test]
fn loopback_ends_once_shut_down_and_dry() {
    let mut pipe = Loopback::new(8);
    let mut buf = Vec::new();
    assert!(matches!(pipe.poll_read(&mut buf, 4), Poll::Pending));
    assert!(matches!(pipe.poll_read(&mut buf, 0), Poll::Ready(Ok(0))));
    assert!(matches!(pipe.poll_write(b"ab"), Poll::Ready(Ok(2))));
    assert!(matches!(pipe.poll_shutdown(), Poll::Ready(Ok(()))));
    assert!(matches!(pipe.poll_write(b"cd"), Poll::Ready(Err(TubeError::BrokenPipe))));
    assert!(matches!(pipe.poll_write(b""), Poll::Ready(Err(TubeError::BrokenPipe))));
    assert!(matches!(pipe.poll_read(&mut buf, 1), Poll::Ready(Ok(1))));
    assert!(matches!(pipe.poll_fill_buf(), Poll::Ready(Ok(b"b"))));
    assert!(matches!(pipe.poll_read(&mut buf, 4), Poll::Ready(Ok(1))));
    assert!(matches!(pipe.poll_read(&mut buf, 4), Poll::Ready(Ok(0))));
    assert!(matches!(pipe.poll_fill_buf(), Poll::Ready(Ok(b""))));
    assert_eq!(buf, b"ab");
}

#[test]
fn recv_passes_on_a_source_that_is_not_ready() {
    let mut never = Never;
    assert!(matches!(never.recv(3), Poll::Pending));
    let mut buf = b"kept".to_vec();
    assert!(matches!(never.poll_read(&mut buf, 3), Poll::Pending));
    assert_eq!(buf, b"kept");
}
