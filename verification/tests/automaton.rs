use io_tubes::traits::{Poll, TubeBufRead, TubeRead, TubeWrite};
use io_tubes::tubes::Loopback;
use io_tubes::utils::RecvUntil;

fn pipe_with(bytes: &[u8], closed: bool) -> Loopback {
    let mut pipe = Loopback::new(1024);
    assert!(matches!(pipe.poll_write(bytes), Poll::Ready(Ok(n)) if n == bytes.len()));
    if closed {
        assert!(matches!(pipe.poll_shutdown(), Poll::Ready(Ok(()))));
    }
    pipe
}

fn naive_until(pattern: &[u8], stream: &[u8]) -> Vec<u8> {
    for end in pattern.len()..=stream.len() {
        if &stream[end - pattern.len()..end] == pattern {
            return stream[..end].to_vec();
        }
    }
    stream.to_vec()
}

#[test]
fn table_has_a_row_for_each_state_short_of_a_match() {
    assert_eq!(RecvUntil::compute_lookup_table(b"").len(), 0);
    let table = RecvUntil::compute_lookup_table(b"\n");
    assert_eq!(table.len(), 1);
    for byte in 0..256usize {
        assert_eq!(table[0][byte], if byte == 0x0a { 1 } else { 0 });
    }
}

#[test]
fn table_falls_back_to_the_longest_border() {
    // after "aaa" and another 'a' the last two 'a' still stand
    let table = RecvUntil::compute_lookup_table(b"aab");
    assert_eq!(table[2][b'a' as usize], 2);
    assert_eq!(table[2][b'b' as usize], 3);
    assert_eq!(table[2][b'c' as usize], 0);
    let table = RecvUntil::compute_lookup_table(b"abcabd");
    assert_eq!(table[5][b'c' as usize], 3);
    assert_eq!(table[5][b'a' as usize], 1);
    assert_eq!(table[5][b'd' as usize], 6);
}

#[test]
fn match_that_overlaps_a_failed_one_is_found() {
    let mut pipe = pipe_with(b"aaab!", true);
    let mut op = RecvUntil::new(b"aab");
    assert!(matches!(op.poll(&mut pipe, false), Poll::Ready(Ok(()))));
    assert_eq!(op.buf().as_slice(), b"aaab");
    assert!(op.is_done());
    // the rest stays on the stream
    let mut rest = Vec::new();
    assert!(matches!(pipe.poll_read(&mut rest, 16), Poll::Ready(Ok(1))));
    assert_eq!(rest, b"!");
}

#[test]
fn agrees_with_a_plain_search() {
    let streams: [&[u8]; 6] =
        [b"", b"a", b"abababc", b"xxabxxab", b"aaaaaaaaab", b"mississippi"];
    let patterns: [&[u8]; 7] = [b"a", b"ab", b"abc", b"aab", b"issip", b"pp", b"zz"];
    for stream in streams {
        for pattern in patterns {
            let mut pipe = pipe_with(stream, true);
            let mut op = RecvUntil::new(pattern);
            assert!(matches!(op.poll(&mut pipe, false), Poll::Ready(Ok(()))));
            assert_eq!(op.into_buf(), naive_until(pattern, stream));
        }
    }
}

#[test]
fn segments_put_together_are_the_stream() {
    let stream = b"one, two, three, four";
    let mut pipe = pipe_with(stream, true);
    let mut parts: Vec<Vec<u8>> = Vec::new();
    loop {
        let mut op = pipe.recv_until(b", ");
        assert!(matches!(op.poll(&mut pipe, false), Poll::Ready(Ok(()))));
        let part = op.into_buf();
        if part.is_empty() {
            break;
        }
        parts.push(part);
    }
    assert_eq!(parts, vec![b"one, ".to_vec(), b"two, ".to_vec(), b"three, ".to_vec(), b"four".to_vec()]);
    assert_eq!(parts.concat(), stream);
}

#[test]
fn partial_match_at_the_end_is_plain_data() {
    let mut pipe = pipe_with(b"header: en", true);
    let mut op = RecvUntil::new(b"end");
    assert!(matches!(op.poll(&mut pipe, false), Poll::Ready(Ok(()))));
    assert_eq!(op.into_buf(), b"header: en");
}

#[test]
fn scan_resumes_where_it_was_suspended() {
    let mut pipe = pipe_with(b"The quick bro", false);
    let mut op = RecvUntil::new(b"brown");
    assert!(matches!(op.poll(&mut pipe, false), Poll::Pending));
    assert!(!op.is_done());
    assert_eq!(op.buf().as_slice(), b"The quick bro");
    assert!(matches!(pipe.poll_write(b"wn fox"), Poll::Ready(Ok(6))));
    assert!(matches!(op.poll(&mut pipe, false), Poll::Ready(Ok(()))));
    assert_eq!(op.into_buf(), b"The quick brown");
    assert!(matches!(pipe.poll_fill_buf(), Poll::Ready(Ok(b" fox"))));
}

#[test]
fn deadline_ends_the_operation_with_what_it_has() {
    let mut pipe = pipe_with(b"no prompt yet", false);
    let mut op = RecvUntil::new(b"$ ");
    assert!(matches!(op.poll(&mut pipe, false), Poll::Pending));
    assert!(matches!(pipe.poll_write(b"$ "), Poll::Ready(Ok(2))));
    // the deadline is looked at before the stream
    assert!(matches!(op.poll(&mut pipe, true), Poll::Ready(Ok(()))));
    assert!(op.is_done());
    assert_eq!(op.buf().as_slice(), b"no prompt yet");
    // a finished operation stays finished and leaves the stream alone
    assert!(matches!(op.poll(&mut pipe, false), Poll::Ready(Ok(()))));
    assert_eq!(op.into_buf(), b"no prompt yet");
    assert!(matches!(pipe.poll_fill_buf(), Poll::Ready(Ok(b"$ "))));
}

#[test]
fn scan_takes_up_to_the_match_and_no_further() {
    let mut op = RecvUntil::new(b"ab");
    assert_eq!(op.scan(b"xxa"), 3);
    assert!(!op.is_done());
    assert_eq!(op.scan(b"bab"), 1);
    assert!(op.is_done());
    assert_eq!(op.into_buf(), b"xxab");
    let mut op = RecvUntil::new(b"ab");
    assert_eq!(op.scan(b"a"), 1);
    assert_eq!(op.scan(b""), 0);
    assert!(op.is_done());
    assert_eq!(op.into_buf(), b"a");
}
