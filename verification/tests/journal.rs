use io_tubes::traits::{Poll, TubeBufRead, TubeRead, TubeWrite};
use io_tubes::tubes::{Direction, Loopback, Record, Tube};
use std::time::Duration;

fn entries(journal: Vec<Record>) -> Vec<(Direction, Vec<u8>)> {
    journal.into_iter().map(|record| (record.direction, record.bytes)).collect()
}

fn tube_with(bytes: &[u8]) -> Tube<Loopback> {
    let mut pipe = Loopback::new(1024);
    assert!(matches!(pipe.poll_write(bytes), Poll::Ready(Ok(n)) if n == bytes.len()));
    Tube::new(pipe)
}

#[test]
fn record_is_rendered_as_a_hex_dump() {
    let record = Record::new(Direction::Received, b"abc");
    assert_eq!(record.target(), "Tube::recv");
    assert_eq!(
        record.message(),
        format!("Received Length: 3 (0x3) bytes\n0000:   61 62 63{}abc", " ".repeat(45))
    );
    let record = Record::new(Direction::Sent, b"");
    assert_eq!(record.target(), "Tube::send");
    assert_eq!(record.message(), "Sent Length: 0 (0x0) bytes\n");
    let record = Record::new(Direction::Sent, &[0u8, 0x7f, b'~', 0xff]);
    assert_eq!(
        record.message(),
        format!("Sent {}", pretty_hex::pretty_hex(&vec![0u8, 0x7f, b'~', 0xff]))
    );
    assert!(record.message().ends_with("..~."));
}

#[test]
fn constructors_set_the_timeout() {
    let tube = Tube::new(Loopback::new(1));
    assert_eq!(tube.timeout, None);
    let tube = Tube::from_buffered(Loopback::new(1));
    assert_eq!(tube.timeout, None);
    let tube = Tube::with_timeout(Loopback::new(1), Duration::from_millis(50));
    assert_eq!(tube.timeout, Some(Duration::from_millis(50)));
    let mut inner = tube.into_inner();
    assert!(matches!(inner.poll_write(b"x"), Poll::Ready(Ok(1))));
}

#[test]
fn writes_are_entered_as_accepted() {
    let mut tube = Tube::new(Loopback::new(4));
    assert!(matches!(tube.poll_write(b"abcdef"), Poll::Ready(Ok(4))));
    assert!(matches!(tube.poll_write(b"ef"), Poll::Pending));
    assert_eq!(entries(tube.take_journal()), vec![(Direction::Sent, b"abcd".to_vec())]);
    assert!(tube.take_journal().is_empty());
}

#[test]
fn lookahead_is_entered_once() {
    let mut tube = tube_with(b"hello");
    assert!(matches!(tube.poll_fill_buf(), Poll::Ready(Ok(b"hello"))));
    assert!(matches!(tube.poll_fill_buf(), Poll::Ready(Ok(b"hello"))));
    tube.consume(2);
    assert!(matches!(tube.poll_fill_buf(), Poll::Ready(Ok(b"llo"))));
    assert!(matches!(tube.inner.poll_write(b" world"), Poll::Ready(Ok(6))));
    assert!(matches!(tube.poll_fill_buf(), Poll::Ready(Ok(b"llo world"))));
    assert_eq!(
        entries(tube.take_journal()),
        vec![(Direction::Received, b"hello".to_vec()), (Direction::Received, b" world".to_vec())]
    );
}

#[test]
fn read_enters_only_what_the_lookahead_had_not_shown() {
    let mut tube = tube_with(b"abcdef");
    assert!(matches!(tube.poll_fill_buf(), Poll::Ready(Ok(b"abcdef"))));
    assert!(matches!(tube.inner.poll_write(b"gh"), Poll::Ready(Ok(2))));
    let mut buf = b"kept:".to_vec();
    assert!(matches!(tube.poll_read(&mut buf, 4), Poll::Ready(Ok(4))));
    assert_eq!(buf, b"kept:abcd");
    assert!(matches!(tube.poll_read(&mut buf, 16), Poll::Ready(Ok(4))));
    assert_eq!(buf, b"kept:abcdefgh");
    assert_eq!(
        entries(tube.take_journal()),
        vec![
            (Direction::Received, b"abcdef".to_vec()),
            (Direction::Received, b"".to_vec()),
            (Direction::Received, b"gh".to_vec()),
        ]
    );
}

#[test]
fn recv_never_returns_more_than_asked_for() {
    let mut tube = tube_with(b"abcdef");
    assert!(matches!(tube.recv(4, false), Poll::Ready(Ok(bytes)) if bytes == b"abcd"));
    assert!(matches!(tube.recv(4, false), Poll::Ready(Ok(bytes)) if bytes == b"ef"));
    assert!(matches!(tube.recv(4, false), Poll::Pending));
    assert_eq!(
        entries(tube.take_journal()),
        vec![(Direction::Received, b"abcd".to_vec()), (Direction::Received, b"ef".to_vec())]
    );
}

#[test]
fn recv_is_empty_at_end_of_stream_and_after_the_deadline() {
    let mut tube = tube_with(b"ab");
    // nothing asked for: nothing comes, though the stream has not ended
    assert!(matches!(tube.recv(0, false), Poll::Ready(Ok(bytes)) if bytes.is_empty()));
    // the deadline has passed: nothing comes, and nothing is taken
    assert!(matches!(tube.recv(8, true), Poll::Ready(Ok(bytes)) if bytes.is_empty()));
    assert!(matches!(tube.recv(8, false), Poll::Ready(Ok(bytes)) if bytes == b"ab"));
    assert!(matches!(tube.recv(8, false), Poll::Pending));
    assert!(matches!(tube.poll_shutdown(), Poll::Ready(Ok(()))));
    // the stream has ended
    assert!(matches!(tube.recv(8, false), Poll::Ready(Ok(bytes)) if bytes.is_empty()));
}

#[test]
fn trait_recv_reads_once() {
    let mut pipe = Loopback::new(16);
    assert!(matches!(pipe.poll_write(b"abc"), Poll::Ready(Ok(3))));
    assert!(matches!(TubeRead::recv(&mut pipe, 2), Poll::Ready(Ok(bytes)) if bytes == b"ab"));
    assert!(matches!(TubeRead::recv(&mut pipe, 2), Poll::Ready(Ok(bytes)) if bytes == b"c"));
    assert!(matches!(TubeRead::recv(&mut pipe, 2), Poll::Pending));
}

#[test]
fn vectored_write_is_entered_buffer_by_buffer() {
    let mut tube = Tube::new(Loopback::new(64));
    let bufs: [&[u8]; 4] = [b"", b"abc", b"", b"def"];
    assert!(!tube.is_write_vectored());
    // the pipe has nothing better to offer than the first buffer with bytes
    assert!(matches!(tube.poll_write_vectored(&bufs), Poll::Ready(Ok(3))));
    assert_eq!(
        entries(tube.take_journal()),
        vec![(Direction::Sent, b"".to_vec()), (Direction::Sent, b"abc".to_vec())]
    );
    let none: [&[u8]; 2] = [b"", b""];
    assert!(matches!(tube.poll_write_vectored(&none), Poll::Ready(Ok(0))));
    assert!(tube.take_journal().is_empty());
    assert!(matches!(tube.poll_fill_buf(), Poll::Ready(Ok(b"abc"))));
}

#[test]
fn tubes_nest() {
    let mut outer = Tube::new(Tube::new(Loopback::new(64)));
    let mut send = outer.send_line(b"ping");
    assert!(matches!(send.poll(&mut outer), Poll::Ready(Ok(()))));
    let mut recv = outer.recv_line();
    assert!(matches!(recv.poll(&mut outer, false), Poll::Ready(Ok(()))));
    assert_eq!(recv.into_buf(), b"ping\n");
    let outer_log = entries(outer.take_journal());
    let inner_log = entries(outer.inner.take_journal());
    assert_eq!(outer_log, inner_log);
    assert_eq!(
        outer_log,
        vec![
            (Direction::Sent, b"ping".to_vec()),
            (Direction::Sent, b"\n".to_vec()),
            (Direction::Received, b"ping\n".to_vec()),
        ]
    );
}
