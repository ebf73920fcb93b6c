use io_tubes::traits::{
    Poll, Stream, Traffic, TubeBufRead, TubeError, TubeLike, TubeRead, TubeWrite,
};
use io_tubes::tubes::Loopback;
use io_tubes::utils::{SendAll, SendLineAfter};

/// A destination that takes what it is told to and counts its flushes.
struct Scripted {
    takes: Vec<Poll<Result<usize, TubeError>>>,
    data: Vec<u8>,
    writes: usize,
    flushes: usize,
    flush_pending: bool,
}

impl Scripted {
    fn new(takes: Vec<Poll<Result<usize, TubeError>>>) -> Self {
        Scripted { takes, data: Vec::new(), writes: 0, flushes: 0, flush_pending: false }
    }
}

impl Stream for Scripted {
    // for proofs only: never run
    fn view(&self) -> Traffic {
        unreachable!()
    }

    fn wf(&self) -> bool {
        true
    }
}

impl TubeWrite for Scripted {
    fn poll_write(&mut self, buf: &[u8]) -> Poll<Result<usize, TubeError>> {
        self.writes += 1;
        if self.takes.is_empty() {
            self.data.extend_from_slice(buf);
            return Poll::Ready(Ok(buf.len()));
        }
        match self.takes.remove(0) {
            Poll::Ready(Ok(n)) => {
                let n = n.min(buf.len());
                self.data.extend_from_slice(&buf[..n]);
                Poll::Ready(Ok(n))
            }
            other => other,
        }
    }

    fn poll_flush(&mut self) -> Poll<Result<(), TubeError>> {
        if self.flush_pending {
            self.flush_pending = false;
            return Poll::Pending;
        }
        self.flushes += 1;
        Poll::Ready(Ok(()))
    }

    fn poll_shutdown(&mut self) -> Poll<Result<(), TubeError>> {
        Poll::Ready(Ok(()))
    }
}

#[test]
fn send_writes_everything_then_flushes() {
    let mut dest = Scripted::new(vec![Poll::Ready(Ok(2)), Poll::Ready(Ok(1))]);
    let mut op = SendAll::new(b"hello");
    assert!(matches!(op.poll(&mut dest), Poll::Ready(Ok(()))));
    assert!(op.is_done());
    assert_eq!(dest.data, b"hello");
    assert_eq!(dest.writes, 3);
    assert_eq!(dest.flushes, 1);
    // a finished send does nothing more
    assert!(matches!(op.poll(&mut dest), Poll::Ready(Ok(()))));
    assert_eq!(dest.writes, 3);
    assert_eq!(dest.flushes, 1);
}

#[test]
fn send_line_adds_one_newline() {
    let mut dest = Scripted::new(vec![]);
    let mut op = SendAll::line(b"test");
    assert!(matches!(op.poll(&mut dest), Poll::Ready(Ok(()))));
    assert_eq!(dest.data, b"test\n");
    let mut dest = Scripted::new(vec![]);
    let mut op = dest.send_line(b"");
    assert!(matches!(op.poll(&mut dest), Poll::Ready(Ok(()))));
    assert_eq!(dest.data, b"\n");
}

#[test]
fn send_of_nothing_only_flushes() {
    let mut dest = Scripted::new(vec![]);
    let mut op = dest.send(b"");
    assert!(matches!(op.poll(&mut dest), Poll::Ready(Ok(()))));
    assert_eq!(dest.writes, 0);
    assert_eq!(dest.flushes, 1);
}

#[test]
fn send_picks_up_where_the_destination_stalled() {
    let mut dest = Scripted::new(vec![Poll::Ready(Ok(3)), Poll::Pending]);
    let mut op = SendAll::line(b"abcdef");
    assert!(matches!(op.poll(&mut dest), Poll::Pending));
    assert!(!op.is_done());
    assert_eq!(dest.data, b"abc");
    assert!(matches!(op.poll(&mut dest), Poll::Ready(Ok(()))));
    assert_eq!(dest.data, b"abcdef\n");
}

#[test]
fn send_waits_for_the_flush() {
    let mut dest = Scripted::new(vec![]);
    dest.flush_pending = true;
    let mut op = SendAll::new(b"x");
    assert!(matches!(op.poll(&mut dest), Poll::Pending));
    assert!(!op.is_done());
    assert!(matches!(op.poll(&mut dest), Poll::Ready(Ok(()))));
    assert_eq!(dest.data, b"x");
    assert_eq!(dest.writes, 1);
}

#[test]
fn destination_that_takes_nothing_fails_the_send() {
    let mut dest = Scripted::new(vec![Poll::Ready(Ok(1)), Poll::Ready(Ok(0))]);
    let mut op = SendAll::new(b"ab");
    assert!(matches!(op.poll(&mut dest), Poll::Ready(Err(TubeError::WriteZero))));
    assert!(!op.is_done());
    assert_eq!(dest.data, b"a");
}

#[test]
fn error_of_the_destination_fails_the_send() {
    let broken = std::io::Error::new(std::io::ErrorKind::ConnectionReset, "reset");
    let mut dest = Scripted::new(vec![Poll::Ready(Err(TubeError::Io(broken)))]);
    let mut op = SendAll::new(b"ab");
    match op.poll(&mut dest) {
        Poll::Ready(Err(TubeError::Io(err))) => {
            assert_eq!(err.kind(), std::io::ErrorKind::ConnectionReset)
        }
        other => panic!("unexpected {:?}", other),
    }
    assert_eq!(dest.flushes, 0);
}

#[test]
fn send_into_a_full_pipe_waits_for_the_reader() {
    let mut pipe = Loopback::new(4);
    let mut op = SendAll::line(b"abcdef");
    assert!(matches!(op.poll(&mut pipe), Poll::Pending));
    let mut got = Vec::new();
    assert!(matches!(pipe.poll_read(&mut got, 16), Poll::Ready(Ok(4))));
    assert!(matches!(op.poll(&mut pipe), Poll::Ready(Ok(()))));
    assert!(matches!(pipe.poll_read(&mut got, 16), Poll::Ready(Ok(3))));
    assert_eq!(got, b"abcdef\n");
}

#[test]
fn send_line_then_recv_line_on_a_loopback() {
    let mut pipe = Loopback::new(64);
    let mut send = pipe.send_line(b"no newline inside");
    assert!(matches!(send.poll(&mut pipe), Poll::Ready(Ok(()))));
    let mut recv = pipe.recv_line();
    assert!(matches!(recv.poll(&mut pipe, false), Poll::Ready(Ok(()))));
    assert_eq!(recv.into_buf(), b"no newline inside\n");
}

#[test]
fn line_with_a_newline_inside_comes_back_in_two() {
    let mut pipe = Loopback::new(64);
    let mut send = pipe.send_line(b"two\nlines");
    assert!(matches!(send.poll(&mut pipe), Poll::Ready(Ok(()))));
    let mut recv = pipe.recv_line();
    assert!(matches!(recv.poll(&mut pipe, false), Poll::Ready(Ok(()))));
    assert_eq!(recv.into_buf(), b"two\n");
    let mut recv = pipe.recv_line();
    assert!(matches!(recv.poll(&mut pipe, false), Poll::Ready(Ok(()))));
    assert_eq!(recv.into_buf(), b"lines\n");
}

#[test]
fn send_line_after_writes_nothing_before_the_prompt() {
    let mut pipe = Loopback::new(64);
    assert!(matches!(pipe.poll_write(b"user"), Poll::Ready(Ok(4))));
    let mut op = SendLineAfter::new(b": ", b"alice");
    assert!(matches!(op.poll(&mut pipe, false), Poll::Pending));
    assert!(matches!(pipe.poll_fill_buf(), Poll::Pending));
    assert!(matches!(pipe.poll_write(b"name: "), Poll::Ready(Ok(6))));
    assert!(matches!(op.poll(&mut pipe, false), Poll::Ready(Ok(()))));
    assert_eq!(op.into_buf(), b"username: ");
    assert!(matches!(pipe.poll_fill_buf(), Poll::Ready(Ok(b"alice\n"))));
}

#[test]
fn send_line_after_sends_once_the_deadline_has_passed() {
    let mut pipe = Loopback::new(64);
    assert!(matches!(pipe.poll_write(b"no prompt"), Poll::Ready(Ok(9))));
    let mut op = pipe.send_line_after(b"$ ", b"ls");
    assert!(matches!(op.poll(&mut pipe, false), Poll::Pending));
    assert!(matches!(op.poll(&mut pipe, true), Poll::Ready(Ok(()))));
    assert_eq!(op.into_buf(), b"no prompt");
    assert!(matches!(pipe.poll_fill_buf(), Poll::Ready(Ok(b"ls\n"))));
}
