use io_tubes::traits::{Poll, Stream, Traffic, TubeBufRead, TubeError, TubeRead, TubeWrite};
use io_tubes::tubes::{DebugTube, Loopback, Tube};
use io_tubes::utils::{RecvUntil, SendLineAfter};
use std::io::{Error, ErrorKind};

/// What a scripted source does on its next fill.
enum Event {
    Chunk(Vec<u8>),
    Wait,
    Fail(ErrorKind),
}

/// A channel that reads as its script says and keeps what is written to it.
struct Scripted {
    script: Vec<Event>,
    buffer: Vec<u8>,
    written: Vec<u8>,
    fills: usize,
    consumed: usize,
}

impl Scripted {
    fn new(script: Vec<Event>) -> Self {
        Scripted { script, buffer: Vec::new(), written: Vec::new(), fills: 0, consumed: 0 }
    }

    fn fetch(&mut self) -> Poll<Result<(), TubeError>> {
        self.fills += 1;
        if !self.buffer.is_empty() {
            return Poll::Ready(Ok(()));
        }
        if self.script.is_empty() {
            return Poll::Ready(Ok(()));
        }
        match self.script.remove(0) {
            Event::Chunk(bytes) => {
                self.buffer = bytes;
                Poll::Ready(Ok(()))
            }
            Event::Wait => Poll::Pending,
            Event::Fail(kind) => Poll::Ready(Err(TubeError::Io(Error::from(kind)))),
        }
    }
}

impl Stream for Scripted {
    // for proofs only: never run
    fn view(&self) -> Traffic {
        unreachable!()
    }

    fn wf(&self) -> bool {
        true
    }
}

impl TubeRead for Scripted {
    fn poll_read(&mut self, buf: &mut Vec<u8>, max_len: usize) -> Poll<Result<usize, TubeError>> {
        match self.fetch() {
            Poll::Ready(Ok(())) => {
                let n = max_len.min(self.buffer.len());
                buf.extend(self.buffer.drain(..n));
                Poll::Ready(Ok(n))
            }
            Poll::Ready(Err(err)) => Poll::Ready(Err(err)),
            Poll::Pending => Poll::Pending,
        }
    }
}

impl TubeBufRead for Scripted {
    fn poll_fill_buf(&mut self) -> Poll<Result<&[u8], TubeError>> {
        match self.fetch() {
            Poll::Ready(Ok(())) => Poll::Ready(Ok(&self.buffer)),
            Poll::Ready(Err(err)) => Poll::Ready(Err(err)),
            Poll::Pending => Poll::Pending,
        }
    }

    fn consume(&mut self, amt: usize) {
        self.consumed += amt;
        self.buffer.drain(..amt);
    }
}

impl TubeWrite for Scripted {
    fn poll_write(&mut self, buf: &[u8]) -> Poll<Result<usize, TubeError>> {
        self.written.extend_from_slice(buf);
        Poll::Ready(Ok(buf.len()))
    }

    fn poll_flush(&mut self) -> Poll<Result<(), TubeError>> {
        Poll::Ready(Ok(()))
    }

    fn poll_shutdown(&mut self) -> Poll<Result<(), TubeError>> {
        Poll::Ready(Ok(()))
    }
}

/// A channel without a lookahead.
struct Plain(Loopback);

impl Stream for Plain {
    // for proofs only: never run
    fn view(&self) -> Traffic {
        unreachable!()
    }

    fn wf(&self) -> bool {
        true
    }
}

impl TubeRead for Plain {
    fn poll_read(&mut self, buf: &mut Vec<u8>, max_len: usize) -> Poll<Result<usize, TubeError>> {
        self.0.poll_read(buf, max_len)
    }
}

impl TubeWrite for Plain {
    fn poll_write(&mut self, buf: &[u8]) -> Poll<Result<usize, TubeError>> {
        self.0.poll_write(buf)
    }

    fn poll_flush(&mut self) -> Poll<Result<(), TubeError>> {
        self.0.poll_flush()
    }

    fn poll_shutdown(&mut self) -> Poll<Result<(), TubeError>> {
        self.0.poll_shutdown()
    }
}

fn kind_of(outcome: Poll<Result<(), TubeError>>) -> ErrorKind {
    match outcome {
        Poll::Ready(Err(TubeError::Io(err))) => err.kind(),
        other => panic!("unexpected {:?}", other),
    }
}

#[test]
fn failed_fill_fails_the_receive_with_its_error() {
    let mut source = Scripted::new(vec![
        Event::Chunk(b"no match ".to_vec()),
        Event::Fail(ErrorKind::ConnectionReset),
        Event::Chunk(b"here".to_vec()),
    ]);
    let mut op = RecvUntil::new(b"here");
    assert_eq!(kind_of(op.poll(&mut source, false)), ErrorKind::ConnectionReset);
    // what was taken before the error stays taken, and nothing is tried again
    assert!(!op.is_done());
    assert_eq!(op.buf().as_slice(), b"no match ");
    assert_eq!(source.fills, 2);
    assert_eq!(source.consumed, 9);
}

#[test]
fn failed_fill_comes_through_a_tube() {
    let source = Scripted::new(vec![Event::Wait, Event::Fail(ErrorKind::BrokenPipe)]);
    let mut tube = Tube::new(source);
    let mut op = tube.recv_until(b"$ ");
    assert!(matches!(op.poll(&mut tube, false), Poll::Pending));
    assert_eq!(kind_of(op.poll(&mut tube, false)), ErrorKind::BrokenPipe);
    assert!(tube.take_journal().is_empty());
}

#[test]
fn failed_fill_fails_send_line_after_and_nothing_is_written() {
    let mut channel = Scripted::new(vec![
        Event::Chunk(b"log".to_vec()),
        Event::Fail(ErrorKind::UnexpectedEof),
    ]);
    let mut op = SendLineAfter::new(b"login: ", b"root");
    assert_eq!(kind_of(op.poll(&mut channel, false)), ErrorKind::UnexpectedEof);
    assert!(channel.written.is_empty());
    assert_eq!(op.into_buf(), b"log");
}

#[test]
fn send_line_after_ends_on_the_end_of_the_stream() {
    let mut channel = Scripted::new(vec![Event::Chunk(b"bye".to_vec())]);
    let mut op = SendLineAfter::new(b"login: ", b"root");
    assert!(matches!(op.poll(&mut channel, false), Poll::Ready(Ok(()))));
    assert_eq!(channel.written, b"root\n");
    assert_eq!(op.into_buf(), b"bye");
}

#[test]
fn tee_wraps_a_channel_without_lookahead() {
    let mut pipe = Loopback::new(64);
    assert!(matches!(pipe.poll_write(b"abc"), Poll::Ready(Ok(3))));
    let mut tee = DebugTube::new(Plain(pipe), Loopback::new(64), Loopback::new(64));
    let mut got = Vec::new();
    assert!(matches!(tee.poll_read(&mut got, 2), Poll::Ready(Ok(2))));
    assert!(matches!(tee.poll_write(b"xy"), Poll::Ready(Ok(2))));
    assert!(matches!(tee.poll_flush(), Poll::Ready(Ok(()))));
    assert!(matches!(tee.poll_shutdown(), Poll::Ready(Ok(()))));
    let (_, mut read_log, mut write_log) = tee.into_parts();
    assert!(matches!(read_log.poll_fill_buf(), Poll::Ready(Ok(b"ab"))));
    assert!(matches!(write_log.poll_fill_buf(), Poll::Ready(Ok(b"xy"))));
    assert_eq!(got, b"ab");
}
