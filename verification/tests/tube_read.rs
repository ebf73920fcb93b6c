use io_tubes::traits::{Poll, TubeBufRead, TubeWrite};
use io_tubes::tubes::Loopback;

#[test]
fn tube_read_can_recv_until() {
    let source = b"The quick brown fox jumps over the lazy dog";
    let mut fake_reader = Loopback::new(source.len());
    assert!(matches!(fake_reader.poll_write(source), Poll::Ready(Ok(43))));
    assert!(matches!(fake_reader.poll_shutdown(), Poll::Ready(Ok(()))));

    // can recv_until
    let mut op = fake_reader.recv_until(b"fox");
    let result = op.poll(&mut fake_reader, false);
    assert!(matches!(result, Poll::Ready(Ok(()))));
    if let Poll::Ready(Ok(())) = result {
        assert_eq!(op.into_buf(), b"The quick brown fox")
    }

    // can recv more
    let mut op = fake_reader.recv_until(b"over");
    let result = op.poll(&mut fake_reader, false);
    assert!(matches!(result, Poll::Ready(Ok(()))));
    if let Poll::Ready(Ok(())) = result {
        assert_eq!(op.into_buf(), b" jumps over")
    }

    // can recv until EOF
    let mut op = fake_reader.recv_until(b"\0");
    let result = op.poll(&mut fake_reader, false);
    assert!(matches!(result, Poll::Ready(Ok(()))));
    if let Poll::Ready(Ok(())) = result {
        assert_eq!(op.into_buf(), b" the lazy dog")
    }
}
