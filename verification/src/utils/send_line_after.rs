//! Send-line-after: wait for a prompt, then answer it.
use vstd::prelude::*;
use crate::traits::{Poll, TubeBufRead, TubeError, TubeWrite, NEW_LINE};
use crate::utils::automaton::ends_with;
use crate::utils::recv_until::{fill_said, fill_served, RecvUntil};
use crate::utils::send::SendAll;

verus! {

/// A receive-until followed by a send of one line. Nothing is written
/// before the receive has completed.
pub struct SendLineAfter {
    /// The receive that comes first.
    pub recv: RecvUntil,
    /// The send that follows it.
    pub send: SendAll,
}

impl SendLineAfter {
    /// The invariant of both parts, and their order.
    pub open spec fn wf(&self) -> bool {
        &&& self.recv.wf()
        &&& self.send.wf()
        &&& !self.recv.finished() ==> self.send.progress() == 0 && !self.send.finished()
    }

    /// Receive until `pattern`, then send `data` and a newline.
    pub fn new(pattern: &[u8], data: &[u8]) -> (r: Self)
        requires
            pattern@.len() > 0,
            data@.len() < usize::MAX,
        ensures
            r.wf(),
            r.recv.pattern() == pattern@,
            r.recv.taken() == Seq::<u8>::empty(),
            !r.recv.finished(),
            r.send.payload() == data@.push(NEW_LINE),
            r.send.progress() == 0,
            !r.send.finished(),
    {
        SendLineAfter { recv: RecvUntil::new(pattern), send: SendAll::line(data) }
    }

    /// Ends the operation and hands over the bytes received.
    pub fn into_buf(self) -> (r: Vec<u8>)
        ensures
            r@ == self.recv.taken(),
    {
        self.recv.into_buf()
    }

    /// Runs the receive, and once it has completed the send, until the
    /// whole completes or the channel cannot proceed. `expired` says that
    /// the deadline of the receive has passed: the line is then sent after
    /// whatever was received.
    ///
    /// While the receive has not completed, nothing is written, and the
    /// poll answers as the receive: pending on a pending fill, failed on a
    /// failed fill, with that error. The receive completes on the pattern,
    /// at the end of the stream or on the deadline, and on nothing else.
    /// From then on the poll answers as the send, and completes with the
    /// line written and flushed.
    pub fn poll<T: TubeBufRead + TubeWrite>(&mut self, inner: &mut T, expired: bool) -> (r: Poll<
        Result<(), TubeError>,
    >)
        requires
            old(self).wf(),
            old(inner).wf(),
        ensures
            final(self).wf(),
            final(inner).wf(),
            final(self).recv.pattern() == old(self).recv.pattern(),
            final(self).send.payload() == old(self).send.payload(),
            old(self).recv.taken().len() <= final(self).recv.taken().len(),
            final(self).recv.taken().take(old(self).recv.taken().len() as int) == old(self).recv.taken(),
            final(inner)@.received == old(inner)@.received + final(self).recv.taken().skip(
                old(self).recv.taken().len() as int,
            ),
            old(self).send.progress() <= final(self).send.progress() <= old(self).send.payload().len(),
            final(inner)@.written == old(inner)@.written + old(self).send.payload().subrange(
                old(self).send.progress() as int,
                final(self).send.progress() as int,
            ),
            match r {
                Poll::Ready(Ok(_)) => final(self).recv.finished() && final(self).send.finished(),
                Poll::Ready(Err(_)) => !final(self).send.finished(),
                Poll::Pending => !final(self).send.finished(),
            },
            final(self).send.data_len() == old(self).send.data_len(),
            final(inner)@.closed == old(inner)@.closed,
            if final(self).recv.finished() {
                &&& old(self).send.finished() || final(self).send.answers(final(inner), r)
                &&& r matches Poll::Ready(Ok(_)) ==> old(self).send.finished() || final(inner)@.flushed
                    == final(inner)@.written.len()
                &&& old(self).recv.finished() || expired || exists|received: T|
                    {
                        &&& #[trigger] fill_served(&received)
                        &&& received@.received == final(inner)@.received
                        &&& received@.at_eof || ends_with(
                            final(self).recv.taken(),
                            old(self).recv.pattern(),
                        )
                    }
            } else {
                &&& final(self).send.progress() == 0
                &&& match r {
                    Poll::Ready(Ok(_)) => false,
                    Poll::Ready(Err(err)) => fill_said(
                        final(inner),
                        Poll::Ready(Err::<Seq<u8>, TubeError>(err)),
                    ),
                    Poll::Pending => fill_said(
                        final(inner),
                        Poll::<Result<Seq<u8>, TubeError>>::Pending,
                    ),
                }
            },
    {
        proof {
            self.send.lemma_progress();
            let sent = self.send.progress() as int;
            assert(self.send.payload().subrange(sent, sent) =~= Seq::<u8>::empty());
            assert(inner@.written + Seq::<u8>::empty() =~= inner@.written);
            let taken = self.recv.taken();
            assert(taken.take(taken.len() as int) =~= taken);
            assert(taken.skip(taken.len() as int) =~= Seq::<u8>::empty());
            assert(inner@.received + Seq::<u8>::empty() =~= inner@.received);
        }
        if !self.recv.is_done() {
            match self.recv.poll(inner, expired) {
                Poll::Pending => {
                    return Poll::Pending;
                },
                Poll::Ready(Err(err)) => {
                    return Poll::Ready(Err(err));
                },
                Poll::Ready(Ok(())) => {},
            }
        }
        let ghost received = *inner;
        proof {
            assert(old(self).recv.finished() || expired || fill_served(&received));
        }
        self.send.poll(inner)
    }
}

} // verus!
