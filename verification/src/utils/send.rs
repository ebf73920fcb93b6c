//! Send: write every byte, then flush.
use vstd::prelude::*;
use vstd::slice::{slice_subrange, slice_to_vec};
use crate::traits::{Poll, TubeError, TubeWrite, NEW_LINE};

verus! {

/// Some attempt to write `what` was answered with `r` and left the
/// channel as `post` has it.
pub open spec fn write_said<T: TubeWrite>(
    post: &T,
    what: Seq<u8>,
    r: Poll<Result<usize, TubeError>>,
) -> bool {
    exists|last: T| #[trigger] last.writes(post, what, r)
}

/// Some attempt to flush was answered with `r` and left the channel as
/// `post` has it.
pub open spec fn flush_said<T: TubeWrite>(post: &T, r: Poll<Result<(), TubeError>>) -> bool {
    exists|last: T| #[trigger] last.flushes(post, r)
}

/// A send in flight: the bytes to write, whether a newline follows them,
/// and how many bytes of the whole the destination has accepted.
pub struct SendAll {
    data: Vec<u8>,
    line: bool,
    sent: usize,
    done: bool,
}

impl SendAll {
    /// Everything that this send writes: the data, and the newline where
    /// one follows.
    pub closed spec fn payload(&self) -> Seq<u8> {
        if self.line {
            self.data@.push(NEW_LINE)
        } else {
            self.data@
        }
    }

    /// How many bytes of the payload the destination has accepted.
    pub closed spec fn progress(&self) -> nat {
        self.sent as nat
    }

    /// How many bytes of the payload are data: all of them, or all but the
    /// newline.
    pub closed spec fn data_len(&self) -> nat {
        self.data@.len()
    }

    /// What the next write offers: what is left of the data, and once
    /// none is left, the newline.
    pub open spec fn offered(&self) -> Seq<u8> {
        if self.progress() < self.data_len() {
            self.payload().subrange(self.progress() as int, self.data_len() as int)
        } else {
            self.payload().subrange(self.progress() as int, self.payload().len() as int)
        }
    }

    /// What a poll that ran the send to where it stands answers to the
    /// channel's answers, `post` being the channel after the poll.
    ///
    /// With bytes left to write, the poll ended on a write of what is
    /// offered, which was not ready or failed: it is pending or fails
    /// with that error, or with `WriteZero` where the write took no byte.
    /// With none left it ended on a flush, and answers as the flush.
    pub open spec fn answers<T: TubeWrite>(&self, post: &T, r: Poll<Result<(), TubeError>>) -> bool {
        if self.progress() < self.payload().len() {
            match r {
                Poll::Ready(Ok(_)) => false,
                Poll::Ready(Err(err)) => {
                    ||| write_said(post, self.offered(), Poll::Ready(Err::<usize, TubeError>(err)))
                    ||| err is WriteZero && write_said(
                        post,
                        self.offered(),
                        Poll::Ready(Ok::<usize, TubeError>(0)),
                    )
                },
                Poll::Pending => write_said(
                    post,
                    self.offered(),
                    Poll::<Result<usize, TubeError>>::Pending,
                ),
            }
        } else {
            flush_said(post, r)
        }
    }

    /// Whether the payload was written and flushed.
    pub closed spec fn finished(&self) -> bool {
        self.done
    }

    /// The operation's invariant: it has not written more than there is,
    /// and it completes only when it has written everything.
    pub closed spec fn wf(&self) -> bool {
        &&& self.sent <= self.payload().len()
        &&& self.payload().len() <= usize::MAX
        &&& self.done ==> self.sent == self.payload().len()
    }

    /// What the invariant says: progress stays within the payload, and a
    /// finished send has written all of it.
    pub proof fn lemma_progress(&self)
        requires
            self.wf(),
        ensures
            self.progress() <= self.payload().len(),
            self.finished() ==> self.progress() == self.payload().len(),
            self.data_len() <= self.payload().len() <= self.data_len() + 1,
            self.payload().take(self.data_len() as int) == self.payload().subrange(
                0,
                self.data_len() as int,
            ),
            self.progress() < self.payload().len() ==> self.offered().len() > 0,
    {
    }

    /// A send of `data`.
    pub fn new(data: &[u8]) -> (r: Self)
        ensures
            r.wf(),
            r.payload() == data@,
            r.data_len() == data@.len(),
            r.progress() == 0,
            !r.finished(),
    {
        let data = slice_to_vec(data);
        assert(data@.len() <= usize::MAX) by {
            vstd::std_specs::vec::axiom_spec_len(&data);
        }
        SendAll { data, line: false, sent: 0, done: false }
    }

    /// A send of `data` and a newline after it.
    pub fn line(data: &[u8]) -> (r: Self)
        requires
            data@.len() < usize::MAX,
        ensures
            r.wf(),
            r.payload() == data@.push(NEW_LINE),
            r.data_len() == data@.len(),
            r.progress() == 0,
            !r.finished(),
    {
        SendAll { data: slice_to_vec(data), line: true, sent: 0, done: false }
    }

    /// Whether the payload was written and flushed.
    pub fn is_done(&self) -> (r: bool)
        ensures
            r == self.finished(),
    {
        self.done
    }

    /// Runs the send against `inner` until it completes or the destination
    /// cannot proceed: writes what is left of the data, then the newline
    /// where one follows, then flushes.
    ///
    /// The destination has accepted, in this call, exactly the part of the
    /// payload between the progress before and the progress after. A
    /// destination that takes no byte of a write fails the send with
    /// `WriteZero`; an error leaves the progress where the failing attempt
    /// found it.
    pub fn poll<T: TubeWrite>(&mut self, inner: &mut T) -> (r: Poll<Result<(), TubeError>>)
        requires
            old(self).wf(),
            old(inner).wf(),
        ensures
            final(self).wf(),
            final(inner).wf(),
            final(self).payload() == old(self).payload(),
            old(self).progress() <= final(self).progress() <= old(self).payload().len(),
            final(inner)@.written == old(inner)@.written + old(self).payload().subrange(
                old(self).progress() as int,
                final(self).progress() as int,
            ),
            final(inner)@.received == old(inner)@.received,
            final(inner)@.buffered == old(inner)@.buffered,
            final(inner)@.closed == old(inner)@.closed,
            r matches Poll::Ready(Ok(_)) ==> old(self).finished() || final(inner)@.flushed
                == final(inner)@.written.len(),
            old(self).finished() ==> r matches Poll::Ready(Ok(_)),
            old(self).finished() ==> old(inner)@.unmoved(final(inner)@),
            match r {
                Poll::Ready(Ok(_)) => final(self).finished(),
                Poll::Ready(Err(_)) => !final(self).finished(),
                Poll::Pending => !final(self).finished(),
            },
            final(self).data_len() == old(self).data_len(),
            old(self).finished() || final(self).answers(final(inner), r),
    {
        let ghost payload = self.payload();
        let ghost first = self.sent;
        proof {
            assert(payload.subrange(first as int, first as int) =~= Seq::<u8>::empty());
            assert(inner@.written + Seq::<u8>::empty() =~= inner@.written);
        }
        if self.done {
            return Poll::Ready(Ok(()));
        }
        let total = if self.line {
            self.data.len() + 1
        } else {
            self.data.len()
        };
        while self.sent < total
            invariant
                self.wf(),
                inner.wf(),
                !self.done,
                !old(self).done,
                payload == self.payload(),
                payload == old(self).payload(),
                self.data_len() == old(self).data_len(),
                total == payload.len(),
                first == old(self).sent,
                first <= self.sent <= total,
                inner@.written == old(inner)@.written + payload.subrange(
                    first as int,
                    self.sent as int,
                ),
                inner@.received == old(inner)@.received,
                inner@.buffered == old(inner)@.buffered,
                inner@.closed == old(inner)@.closed,
            decreases total - self.sent,
        {
            let newline = [NEW_LINE];
            let ghost before = inner@;
            let ghost at = self.sent;
            let ghost last = *inner;
            let attempt = if self.sent < self.data.len() {
                inner.poll_write(slice_subrange(self.data.as_slice(), self.sent, self.data.len()))
            } else {
                inner.poll_write(newline.as_slice())
            };
            proof {
                assert(newline@ =~= seq![NEW_LINE]);
                assert(self.offered() =~= if at < self.data@.len() {
                    self.data@.subrange(at as int, self.data@.len() as int)
                } else {
                    newline@
                });
                assert(last.writes(inner, self.offered(), attempt));
            }
            match attempt {
                Poll::Pending => {
                    return Poll::Pending;
                },
                Poll::Ready(Err(err)) => {
                    return Poll::Ready(Err(err));
                },
                Poll::Ready(Ok(n)) => {
                    if n == 0 {
                        proof {
                            assert(newline@.take(0) =~= Seq::<u8>::empty());
                            assert(self.data@.subrange(at as int, self.data@.len() as int).take(0)
                                =~= Seq::<u8>::empty());
                            assert(before.written + Seq::<u8>::empty() =~= before.written);
                        }
                        return Poll::Ready(Err(TubeError::WriteZero));
                    }
                    self.sent = self.sent + n;
                    proof {
                        let tail = if at < self.data@.len() {
                            self.data@.subrange(at as int, self.data@.len() as int)
                        } else {
                            newline@
                        };
                        assert(newline@ =~= seq![NEW_LINE]);
                        assert(tail.take(n as int) =~= payload.subrange(at as int, at + n));
                        assert(payload.subrange(first as int, at as int) + payload.subrange(
                            at as int,
                            at + n,
                        ) =~= payload.subrange(first as int, at + n));
                    }
                },
            }
        }
        let ghost last = *inner;
        let flushed = inner.poll_flush();
        assert(last.flushes(inner, flushed));
        match flushed {
            Poll::Pending => Poll::Pending,
            Poll::Ready(Err(err)) => Poll::Ready(Err(err)),
            Poll::Ready(Ok(done)) => {
                assert(done == ());
                self.done = true;
                Poll::Ready(Ok(()))
            },
        }
    }
}

} // verus!
