//! The interactive bridge: a pump between the console and a tube.
use vstd::prelude::*;
use crate::traits::{Poll, TubeBufRead, TubeError, TubeWrite};

verus! {

/// How one attempt to forward went.
#[derive(Debug)]
pub enum Forward {
    /// The destination accepted this many bytes, and the source has
    /// consumed them.
    Moved(usize),
    /// The source has nothing ready, or the destination takes nothing
    /// now. What the source has shown stays in its lookahead.
    Blocked,
    /// The source is at end-of-stream.
    Ended,
}

/// What one attempt to forward does, as the outcomes of the attempts that
/// it makes on the two channels, from `source` and `dest` to
/// `source_post` and `dest_post`.
///
/// It fills the source. Where the fill does not complete, fails or shows
/// nothing, the destination is left alone, and the attempt is blocked, has
/// failed with the error of the fill, or has ended. Else it writes what
/// the fill has shown to the destination. Where the write does not
/// complete or fails, the source is left as the fill left it, and the
/// attempt is blocked or has failed with the error of the write. Else the
/// source consumes as many bytes as the destination has accepted, and so
/// many have moved.
pub open spec fn forwards<S: TubeBufRead, D: TubeWrite>(
    source: &S,
    source_post: &S,
    dest: &D,
    dest_post: &D,
    r: Result<Forward, TubeError>,
) -> bool {
    ||| {
        &&& dest_post == dest
        &&& match r {
            Ok(Forward::Blocked) => source.fills(source_post, Poll::Pending),
            Ok(Forward::Ended) => source.fills(source_post, Poll::Ready(Ok(Seq::empty()))),
            Ok(Forward::Moved(_)) => false,
            Err(err) => source.fills(source_post, Poll::Ready(Err(err))),
        }
    }
    ||| {
        &&& source_post@.buffered.len() > 0
        &&& source.fills(source_post, Poll::Ready(Ok(source_post@.buffered)))
        &&& match r {
            Ok(Forward::Blocked) => dest.writes(dest_post, source_post@.buffered, Poll::Pending),
            Ok(_) => false,
            Err(err) => dest.writes(dest_post, source_post@.buffered, Poll::Ready(Err(err))),
        }
    }
    ||| exists|filled: S, n: usize|
        {
            &&& r == Ok::<Forward, TubeError>(Forward::Moved(n))
            &&& filled@.buffered.len() > 0
            &&& source.fills(&filled, Poll::Ready(Ok(filled@.buffered)))
            &&& dest.writes(dest_post, filled@.buffered, Poll::Ready(Ok(n)))
            &&& #[trigger] filled.consumes(source_post, n)
        }
}

/// How far an attempt to forward that answered `r` has taken the source:
/// bytes have left it only where they have moved, and then as many as
/// have moved. The attempt has ended only at the end of the stream.
pub open spec fn handed_over<S: TubeBufRead>(
    source: &S,
    source_post: &S,
    r: Result<Forward, TubeError>,
) -> bool {
    match r {
        Ok(Forward::Moved(n)) => source_post@.received.len() == source@.received.len() + n,
        Ok(Forward::Ended) => source@.at_eof && source_post@.received == source@.received,
        _ => source_post@.received == source@.received,
    }
}

/// One attempt to forward what `source` has ready to `dest`: fill, write
/// what was filled, consume what was written. Whatever the outcome, the
/// source has handed over exactly the bytes that the destination has
/// accepted: a chunk that the destination is not ready for is not lost.
pub fn forward<S: TubeBufRead, D: TubeWrite>(source: &mut S, dest: &mut D) -> (r: Result<
    Forward,
    TubeError,
>)
    requires
        old(source).wf(),
        old(dest).wf(),
    ensures
        final(source).wf(),
        final(dest).wf(),
        old(source)@.received.len() <= final(source)@.received.len(),
        final(source)@.received.take(old(source)@.received.len() as int) == old(source)@.received,
        final(dest)@.written == old(dest)@.written + final(source)@.received.skip(
            old(source)@.received.len() as int,
        ),
        final(source)@.written == old(source)@.written,
        final(source)@.closed == old(source)@.closed,
        final(dest)@.received == old(dest)@.received,
        final(dest)@.buffered == old(dest)@.buffered,
        final(dest)@.closed == old(dest)@.closed,
        handed_over(old(source), final(source), r),
        forwards(old(source), final(source), old(dest), final(dest), r),
{
    let ghost past = source@.received;
    proof {
        assert(past.take(past.len() as int) =~= past);
        assert(dest@.written + past.skip(past.len() as int) =~= dest@.written);
    }
    let amt = match source.poll_fill_buf() {
        Poll::Pending => {
            return Ok(Forward::Blocked);
        },
        Poll::Ready(Err(err)) => {
            return Err(err);
        },
        Poll::Ready(Ok(buf)) => {
            if buf.len() == 0 {
                assert(buf@ =~= Seq::<u8>::empty());
                return Ok(Forward::Ended);
            }
            let ghost shown = buf@;
            match dest.poll_write(buf) {
                Poll::Pending => {
                    return Ok(Forward::Blocked);
                },
                Poll::Ready(Err(err)) => {
                    return Err(err);
                },
                Poll::Ready(Ok(amt)) => amt,
            }
        },
    };
    let ghost shown = source@.buffered;
    let ghost filled = *source;
    source.consume(amt);
    proof {
        assert((past + shown.take(amt as int)).skip(past.len() as int) =~= shown.take(amt as int));
        assert((past + shown.take(amt as int)).take(past.len() as int) =~= past);
        assert(filled.consumes(source, amt));
    }
    Ok(Forward::Moved(amt))
}

/// Which way the bridge pumps next.
#[derive(Clone, Copy, Debug, PartialEq, Eq, Structural)]
pub enum Phase {
    /// From the console to the tube.
    Input,
    /// From the tube to the console.
    Output,
}

/// The bridge between the console and a tube.
///
/// Each invocation pumps console input to the tube for as long as both
/// keep up, then tube output to the console likewise, and then waits. The
/// end of the console input ends the bridge; the end of the tube's output
/// breaks it.
#[derive(Debug)]
pub struct Interactive {
    phase: Phase,
}

impl Interactive {
    /// Which way the bridge pumps next.
    pub closed spec fn phase(&self) -> Phase {
        self.phase
    }

    /// A bridge at the start of an invocation.
    pub fn new() -> (r: Self)
        ensures
            r.phase() == Phase::Input,
    {
        Interactive { phase: Phase::Input }
    }

    /// What follows from the `outcome` of an attempt to forward while the
    /// bridge pumps in direction `phase`: the direction `next` in which it
    /// pumps then, and what the step answers.
    pub open spec fn decides(
        phase: Phase,
        outcome: Result<Forward, TubeError>,
        next: Phase,
        r: Option<Poll<Result<(), TubeError>>>,
    ) -> bool {
        match outcome {
            Ok(Forward::Moved(_)) => r is None && next == phase,
            Ok(Forward::Blocked) => match phase {
                Phase::Input => r is None && next == Phase::Output,
                Phase::Output => r == Some(Poll::<Result<(), TubeError>>::Pending) && next
                    == Phase::Input,
            },
            Ok(Forward::Ended) => next == phase && match phase {
                Phase::Input => r == Some(Poll::Ready(Ok::<(), TubeError>(()))),
                Phase::Output => r == Some(Poll::Ready(Err::<(), TubeError>(TubeError::BrokenPipe))),
            },
            Err(err) => r == Some(Poll::Ready(Err::<(), TubeError>(err))) && next == phase,
        }
    }

    /// What follows from one attempt to forward in the current direction.
    ///
    /// Returns `None` where the bridge is to be stepped again at once:
    /// after bytes have moved, in the same direction; after the input side
    /// has blocked, in the other. Returns `Pending` once the output side
    /// has blocked too: the invocation is over, and the next one starts
    /// with the input. The end of the input completes the bridge, the end
    /// of the output fails it with `BrokenPipe`, and an error of either
    /// channel fails it with that error.
    pub fn decide(&mut self, outcome: Result<Forward, TubeError>) -> (r: Option<
        Poll<Result<(), TubeError>>,
    >)
        ensures
            Self::decides(old(self).phase(), outcome, final(self).phase(), r),
    {
        match outcome {
            Ok(Forward::Moved(_)) => None,
            Ok(Forward::Blocked) => match self.phase {
                Phase::Input => {
                    self.phase = Phase::Output;
                    None
                },
                Phase::Output => {
                    self.phase = Phase::Input;
                    Some(Poll::Pending)
                },
            },
            Ok(Forward::Ended) => match self.phase {
                Phase::Input => Some(Poll::Ready(Ok(()))),
                Phase::Output => Some(Poll::Ready(Err(TubeError::BrokenPipe))),
            },
            Err(err) => Some(Poll::Ready(Err(err))),
        }
    }

    /// One step of the bridge: one attempt to forward in the current
    /// direction, from `stdin` to `tube` or from `tube` to `stdout`, and
    /// what follows from it as `decide` has it. The driver steps until
    /// something other than `None` comes back.
    ///
    /// In either direction the destination has accepted exactly what the
    /// source has handed over, and the other direction has not moved.
    pub fn step<I: TubeBufRead, O: TubeWrite, T: TubeBufRead + TubeWrite>(
        &mut self,
        stdin: &mut I,
        stdout: &mut O,
        tube: &mut T,
    ) -> (r: Option<Poll<Result<(), TubeError>>>)
        requires
            old(stdin).wf(),
            old(stdout).wf(),
            old(tube).wf(),
        ensures
            final(stdin).wf(),
            final(stdout).wf(),
            final(tube).wf(),
            old(stdin)@.received.len() <= final(stdin)@.received.len(),
            old(tube)@.received.len() <= final(tube)@.received.len(),
            final(tube)@.written == old(tube)@.written + final(stdin)@.received.skip(
                old(stdin)@.received.len() as int,
            ),
            final(stdout)@.written == old(stdout)@.written + final(tube)@.received.skip(
                old(tube)@.received.len() as int,
            ),
            old(self).phase() == Phase::Input ==> final(tube)@.received == old(tube)@.received,
            old(self).phase() == Phase::Output ==> final(stdin)@.received == old(stdin)@.received,
            r matches Some(Poll::Ready(Ok(_))) ==> old(self).phase() == Phase::Input && old(stdin)@.at_eof,
            r is None ==> final(self).phase() == old(self).phase() || old(self).phase()
                == Phase::Input,
            r matches Some(Poll::Pending) ==> old(self).phase() == Phase::Output && final(self).phase() == Phase::Input,
            exists|outcome: Result<Forward, TubeError>|
                {
                    &&& #[trigger] Self::decides(old(self).phase(), outcome, final(self).phase(), r)
                    &&& match old(self).phase() {
                        Phase::Input => {
                            &&& forwards(old(stdin), final(stdin), old(tube), final(tube), outcome)
                            &&& handed_over(old(stdin), final(stdin), outcome)
                            &&& *final(stdout) == *old(stdout)
                        },
                        Phase::Output => {
                            &&& forwards(old(tube), final(tube), old(stdout), final(stdout), outcome)
                            &&& handed_over(old(tube), final(tube), outcome)
                            &&& *final(stdin) == *old(stdin)
                        },
                    }
                },
    {
        proof {
            let a = stdin@.received;
            let b = tube@.received;
            assert(tube@.written + a.skip(a.len() as int) =~= tube@.written);
            assert(stdout@.written + b.skip(b.len() as int) =~= stdout@.written);
        }
        let outcome = match self.phase {
            Phase::Input => forward(stdin, tube),
            Phase::Output => forward(tube, stdout),
        };
        let ghost moved = outcome;
        let r = self.decide(outcome);
        assert(Self::decides(old(self).phase(), moved, self.phase(), r));
        r
    }
}

} // verus!
