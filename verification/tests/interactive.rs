use io_tubes::traits::{Poll, TubeBufRead, TubeError, TubeRead, TubeWrite};
use io_tubes::tubes::{Loopback, Tube};
use io_tubes::utils::interactive::{forward, Forward, Interactive};

fn pipe_with(bytes: &[u8], capacity: usize) -> Loopback {
    let mut pipe = Loopback::new(capacity);
    assert!(matches!(pipe.poll_write(bytes), Poll::Ready(Ok(n)) if n == bytes.len()));
    pipe
}

fn run(
    bridge: &mut Interactive,
    stdin: &mut Loopback,
    stdout: &mut Loopback,
    tube: &mut Tube<Loopback>,
) -> Poll<Result<(), TubeError>> {
    for _ in 0..1000 {
        if let Some(outcome) = bridge.step(stdin, stdout, tube) {
            return outcome;
        }
    }
    panic!("the bridge did not settle");
}

#[test]
fn forward_moves_what_the_destination_takes() {
    let mut source = pipe_with(b"abcdef", 16);
    let mut dest = Loopback::new(4);
    assert!(matches!(forward(&mut source, &mut dest), Ok(Forward::Moved(4))));
    // the destination is full: the rest stays with the source
    assert!(matches!(forward(&mut source, &mut dest), Ok(Forward::Blocked)));
    assert!(matches!(source.poll_fill_buf(), Poll::Ready(Ok(b"ef"))));
    let mut got = Vec::new();
    assert!(matches!(dest.poll_read(&mut got, 16), Poll::Ready(Ok(4))));
    assert_eq!(got, b"abcd");
    assert!(matches!(forward(&mut source, &mut dest), Ok(Forward::Moved(2))));
    assert!(matches!(forward(&mut source, &mut dest), Ok(Forward::Blocked)));
    assert!(matches!(source.poll_shutdown(), Poll::Ready(Ok(()))));
    assert!(matches!(forward(&mut source, &mut dest), Ok(Forward::Ended)));
    assert!(matches!(dest.poll_shutdown(), Poll::Ready(Ok(()))));
    let mut source = pipe_with(b"x", 16);
    assert!(matches!(forward(&mut source, &mut dest), Err(TubeError::BrokenPipe)));
    assert!(matches!(source.poll_fill_buf(), Poll::Ready(Ok(b"x"))));
}

#[test]
fn decide_follows_the_direction() {
    let mut bridge = Interactive::new();
    assert!(bridge.decide(Ok(Forward::Moved(3))).is_none());
    assert!(bridge.decide(Ok(Forward::Moved(0))).is_none());
    assert!(matches!(bridge.decide(Ok(Forward::Ended)), Some(Poll::Ready(Ok(())))));
    assert!(matches!(
        bridge.decide(Err(TubeError::WriteZero)),
        Some(Poll::Ready(Err(TubeError::WriteZero)))
    ));
    // the input side blocks: on to the output side
    assert!(bridge.decide(Ok(Forward::Blocked)).is_none());
    assert!(bridge.decide(Ok(Forward::Moved(1))).is_none());
    assert!(matches!(
        bridge.decide(Ok(Forward::Ended)),
        Some(Poll::Ready(Err(TubeError::BrokenPipe)))
    ));
    // the output side blocks too: the invocation is over
    assert!(matches!(bridge.decide(Ok(Forward::Blocked)), Some(Poll::Pending)));
    // and the next one starts with the input
    assert!(matches!(bridge.decide(Ok(Forward::Ended)), Some(Poll::Ready(Ok(())))));
}

#[test]
fn bridge_pumps_both_ways() {
    let mut stdin = pipe_with(b"whoami\n", 64);
    let mut stdout = Loopback::new(64);
    let mut tube = Tube::new(Loopback::new(64));
    let mut bridge = tube.interactive();
    // what the console sends reaches the tube, and the echo reaches the console
    assert!(matches!(run(&mut bridge, &mut stdin, &mut stdout, &mut tube), Poll::Pending));
    assert!(matches!(stdout.poll_fill_buf(), Poll::Ready(Ok(b"whoami\n"))));
    assert!(matches!(stdin.poll_fill_buf(), Poll::Pending));
    // the end of the console input ends the bridge
    assert!(matches!(stdin.poll_shutdown(), Poll::Ready(Ok(()))));
    assert!(matches!(run(&mut bridge, &mut stdin, &mut stdout, &mut tube), Poll::Ready(Ok(()))));
}

#[test]
fn end_of_the_tube_breaks_the_bridge() {
    let mut stdin = Loopback::new(64);
    let mut stdout = Loopback::new(64);
    let mut tube = Tube::new(pipe_with(b"bye", 64));
    assert!(matches!(tube.poll_shutdown(), Poll::Ready(Ok(()))));
    let mut bridge = Interactive::new();
    assert!(matches!(
        run(&mut bridge, &mut stdin, &mut stdout, &mut tube),
        Poll::Ready(Err(TubeError::BrokenPipe))
    ));
    // what the tube still had got through first
    assert!(matches!(stdout.poll_fill_buf(), Poll::Ready(Ok(b"bye"))));
}

#[test]
fn console_that_is_not_ready_loses_nothing() {
    let mut stdin = Loopback::new(64);
    let mut stdout = Loopback::new(2);
    let mut tube = Tube::new(pipe_with(b"abcde", 64));
    let mut bridge = Interactive::new();
    assert!(matches!(run(&mut bridge, &mut stdin, &mut stdout, &mut tube), Poll::Pending));
    let mut seen = Vec::new();
    assert!(matches!(stdout.poll_read(&mut seen, 16), Poll::Ready(Ok(2))));
    assert!(matches!(run(&mut bridge, &mut stdin, &mut stdout, &mut tube), Poll::Pending));
    assert!(matches!(stdout.poll_read(&mut seen, 16), Poll::Ready(Ok(2))));
    assert!(matches!(run(&mut bridge, &mut stdin, &mut stdout, &mut tube), Poll::Pending));
    assert!(matches!(stdout.poll_read(&mut seen, 16), Poll::Ready(Ok(1))));
    assert_eq!(seen, b"abcde");
}
