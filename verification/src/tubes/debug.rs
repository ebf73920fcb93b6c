//! The tee: a channel that mirrors what flows through it to two sinks.
use vstd::prelude::*;
use vstd::slice::slice_subrange;
use crate::traits::{Poll, Stream, Traffic, TubeBufRead, TubeError, TubeRead, TubeWrite};

verus! {

/// What one `drain` does, as the outcome of the attempt that it makes on
/// the sink: from `sink` holding on to `held`, to `sink_post` with `left`
/// still held.
///
/// With nothing held the sink is left alone. Else the sink is offered all
/// that is held: what it accepts is no longer held, and where it fails,
/// so does the drain. A sink that is not ready is no failure.
pub open spec fn drains<L: TubeWrite>(
    sink: &L,
    sink_post: &L,
    held: Seq<u8>,
    left: Seq<u8>,
    r: Result<(), TubeError>,
) -> bool {
    if held.len() == 0 {
        sink_post == sink && left == held && r is Ok
    } else {
        match r {
            Ok(_) => {
                ||| left == held && sink.writes(sink_post, held, Poll::Pending)
                ||| {
                    &&& left.len() <= held.len()
                    &&& left == held.skip(held.len() - left.len())
                    &&& sink.writes(
                        sink_post,
                        held,
                        Poll::Ready(Ok((held.len() - left.len()) as usize)),
                    )
                }
            },
            Err(err) => left == held && sink.writes(sink_post, held, Poll::Ready(Err(err))),
        }
    }
}

/// What `drain_all` does, by the drain that ended it: from `sink` holding
/// on to `held`, to `sink_post` with `left` still held.
///
/// With nothing held the sink is left alone. Else the call is done once
/// nothing is left; it is pending after a drain that moved nothing, and
/// has failed after a drain that failed, either of which found `left`
/// held and left it so.
pub open spec fn drains_all<L: TubeWrite>(
    sink: &L,
    sink_post: &L,
    held: Seq<u8>,
    left: Seq<u8>,
    r: Poll<Result<(), TubeError>>,
) -> bool {
    if held.len() == 0 {
        sink_post == sink && left == held && r matches Poll::Ready(Ok(_))
    } else {
        match r {
            Poll::Ready(Ok(_)) => left.len() == 0,
            Poll::Ready(Err(err)) => exists|last: L|
                #[trigger] drains(&last, sink_post, left, left, Err::<(), TubeError>(err)),
            Poll::Pending => left.len() > 0 && exists|last: L|
                #[trigger] drains(&last, sink_post, left, left, Ok::<(), TubeError>(())),
        }
    }
}

/// One attempt to move the front of `queue` to `sink`. What the sink
/// accepts leaves the queue; a sink that is not ready leaves it as it is,
/// which is no failure. Between them, sink and queue hold what they held.
pub fn drain<L: TubeWrite>(sink: &mut L, queue: &mut Vec<u8>) -> (r: Result<(), TubeError>)
    requires
        old(sink).wf(),
    ensures
        final(sink).wf(),
        final(sink)@.written + final(queue)@ == old(sink)@.written + old(queue)@,
        old(sink)@.written.len() <= final(sink)@.written.len(),
        final(sink)@.closed == old(sink)@.closed,
        final(queue)@.len() <= old(queue)@.len(),
        r is Err ==> final(queue)@ == old(queue)@ && final(sink)@.written == old(sink)@.written,
        drains(old(sink), final(sink), old(queue)@, final(queue)@, r),
{
    if queue.len() == 0 {
        return Ok(());
    }
    let ghost held = queue@;
    match sink.poll_write(queue.as_slice()) {
        Poll::Ready(Ok(n)) => {
            let rest = queue.split_off(n);
            *queue = rest;
            proof {
                assert(old(sink)@.written + held.take(n as int) + queue@ =~= old(sink)@.written
                    + held);
            }
            Ok(())
        },
        Poll::Ready(Err(err)) => Err(err),
        Poll::Pending => Ok(()),
    }
}

/// Moves all of `queue` to `sink`, attempt after attempt, as long as the
/// sink takes something. Completes when the queue is empty; a sink that
/// takes nothing leaves the rest queued for the next call.
pub fn drain_all<L: TubeWrite>(sink: &mut L, queue: &mut Vec<u8>) -> (r: Poll<Result<(), TubeError>>)
    requires
        old(sink).wf(),
    ensures
        final(sink).wf(),
        final(sink)@.written + final(queue)@ == old(sink)@.written + old(queue)@,
        old(sink)@.written.len() <= final(sink)@.written.len(),
        final(sink)@.closed == old(sink)@.closed,
        r matches Poll::Ready(Ok(_)) ==> final(queue)@.len() == 0,
        r is Pending ==> final(queue)@.len() > 0,
        drains_all(old(sink), final(sink), old(queue)@, final(queue)@, r),
{
    while queue.len() > 0
        invariant
            sink.wf(),
            old(queue)@.len() == 0 ==> *sink == *old(sink) && queue@ == old(queue)@,
            sink@.written + queue@ == old(sink)@.written + old(queue)@,
            old(sink)@.written.len() <= sink@.written.len(),
            sink@.closed == old(sink)@.closed,
        decreases queue@.len(),
    {
        let before = queue.len();
        let ghost last = *sink;
        let ghost held = queue@;
        match drain(sink, queue) {
            Ok(()) => {},
            Err(err) => {
                assert(drains(&last, sink, queue@, queue@, Err::<(), TubeError>(err)));
                return Poll::Ready(Err(err));
            },
        }
        if queue.len() == before {
            proof {
                assert(held.skip(0) =~= held);
                assert(drains(&last, sink, queue@, queue@, Ok::<(), TubeError>(())));
            }
            return Poll::Pending;
        }
    }
    Poll::Ready(Ok(()))
}

/// Where a sink and its queue hold between them what they held, so do
/// the part of the sink from `from` on and the queue.
proof fn lemma_drained(sink: Seq<u8>, queue: Seq<u8>, sink2: Seq<u8>, queue2: Seq<u8>, from: int)
    requires
        0 <= from <= sink.len() <= sink2.len(),
        sink2 + queue2 == sink + queue,
    ensures
        sink2.skip(from) + queue2 == sink.skip(from) + queue,
{
    assert(sink2.skip(from) + queue2 =~= (sink2 + queue2).skip(from));
    assert(sink.skip(from) + queue =~= (sink + queue).skip(from));
}

/// A read that takes `seen` bytes out of the lookahead `shown` and
/// queues the rest of what it `got` for the sink keeps sink and queue in
/// step with what the caller has observed.
proof fn lemma_read_mirrors(
    sink: Seq<u8>,
    queue: Seq<u8>,
    past: Seq<u8>,
    shown: Seq<u8>,
    got: Seq<u8>,
    seen: int,
)
    requires
        sink + queue == past + shown,
        0 <= seen <= got.len(),
        seen <= shown.len(),
        seen == got.len() || seen == shown.len(),
        got.take(seen) == shown.take(seen),
    ensures
        sink + (queue + got.skip(seen)) == (past + got) + shown.skip(seen),
{
    assert(sink + (queue + got.skip(seen)) =~= (sink + queue) + got.skip(seen));
    if seen == got.len() {
        assert(got =~= shown.take(seen));
        assert((past + shown) + got.skip(seen) =~= (past + shown.take(seen)) + shown.skip(seen));
    } else {
        assert(shown =~= got.take(seen));
        assert((past + got.take(seen)) + got.skip(seen) =~= (past + got) + shown.skip(seen));
    }
}

/// Where the traffic of a tee's three channels stood when the tee was
/// made: what they had moved before is none of its business.
pub ghost struct Marks {
    /// How many bytes the wrapped channel had handed over.
    pub received: nat,
    /// How many bytes the wrapped channel had accepted.
    pub written: nat,
    /// How many bytes the read sink had accepted.
    pub read_sink: nat,
    /// How many bytes the write sink had accepted.
    pub write_sink: nat,
}

/// A channel that logs all data passed through it by acting like `tee`:
/// what is read goes to one sink, what is written to the other, each in
/// the order in which it crossed.
///
/// Bytes that a sink has not accepted yet wait in a queue that grows as
/// far as it must; a slow sink never holds up a write to the destination.
/// Of the lookahead the caller is shown only what the read sink has
/// accepted. Shutting the tee down flushes the queues and leaves the sinks
/// open.
///
/// The tee wraps any channel that can be read and written; it has a
/// lookahead where the channel has one.
pub struct DebugTube<T: TubeRead + TubeWrite, L: TubeWrite> {
    inner: T,
    read_log: L,
    write_log: L,
    read_queue: Vec<u8>,
    write_queue: Vec<u8>,
    read_buf_logged: usize,
    marks: Ghost<Marks>,
}

impl<T: TubeRead + TubeWrite, L: TubeWrite> DebugTube<T, L> {
    /// The wrapped channel.
    pub closed spec fn wrapped(&self) -> T {
        self.inner
    }

    /// The sink of what is read.
    pub closed spec fn read_sink(&self) -> L {
        self.read_log
    }

    /// The sink of what is written.
    pub closed spec fn write_sink(&self) -> L {
        self.write_log
    }

    /// How many bytes at the front of the wrapped channel's lookahead the
    /// read sink has accepted: those are shown to the caller.
    pub closed spec fn released(&self) -> nat {
        self.read_buf_logged as nat
    }

    /// Where the traffic of the three channels stood when this tee was
    /// made.
    pub closed spec fn marks(&self) -> Marks {
        self.marks@
    }

    /// What the caller has seen come in through this tee: the bytes it
    /// received, then the lookahead it was shown.
    pub open spec fn observed_reads(&self) -> Seq<u8> {
        self.wrapped()@.received.skip(self.marks().received as int)
            + self.wrapped()@.buffered.take(self.released() as int)
    }

    /// What the caller has seen go out through this tee: the bytes that
    /// the destination accepted.
    pub open spec fn observed_writes(&self) -> Seq<u8> {
        self.wrapped()@.written.skip(self.marks().written as int)
    }

    /// What the read sink has accepted from this tee.
    pub open spec fn mirrored_reads(&self) -> Seq<u8> {
        self.read_sink()@.written.skip(self.marks().read_sink as int)
    }

    /// What the write sink has accepted from this tee.
    pub open spec fn mirrored_writes(&self) -> Seq<u8> {
        self.write_sink()@.written.skip(self.marks().write_sink as int)
    }

    /// The bytes read that wait for the read sink.
    pub closed spec fn pending_reads(&self) -> Seq<u8> {
        self.read_queue@
    }

    /// The bytes written that wait for the write sink.
    pub closed spec fn pending_writes(&self) -> Seq<u8> {
        self.write_queue@
    }

    /// The tee's invariant: the three channels are in order, and in each
    /// direction the sink and its queue together hold what was observed.
    pub closed spec fn inv(&self) -> bool {
        &&& self.inner.wf()
        &&& self.read_log.wf()
        &&& self.write_log.wf()
        &&& self.read_buf_logged <= self.inner@.buffered.len()
        &&& self.read_buf_logged > 0 ==> self.read_queue@.len() == 0
        &&& self.marks@.received <= self.inner@.received.len()
        &&& self.marks@.written <= self.inner@.written.len()
        &&& self.marks@.read_sink <= self.read_log@.written.len()
        &&& self.marks@.write_sink <= self.write_log@.written.len()
        &&& self.mirrored_reads() + self.read_queue@ == self.observed_reads()
        &&& self.mirrored_writes() + self.write_queue@ == self.observed_writes()
    }

    /// The law of the tee: in each direction, what the sink has accepted
    /// and what still waits for it are, in this order, exactly what the
    /// caller has observed. Once nothing waits, the sink holds the very
    /// bytes that the caller saw.
    pub proof fn lemma_mirrors(&self)
        requires
            self.wf(),
        ensures
            self.mirrored_reads() + self.pending_reads() == self.observed_reads(),
            self.mirrored_writes() + self.pending_writes() == self.observed_writes(),
            self.pending_reads().len() == 0 ==> self.mirrored_reads() == self.observed_reads(),
            self.pending_writes().len() == 0 ==> self.mirrored_writes() == self.observed_writes(),
            self.wrapped().wf(),
            self.read_sink().wf(),
            self.write_sink().wf(),
            self.released() <= self.wrapped()@.buffered.len(),
            self.released() > 0 ==> self.pending_reads().len() == 0,
    {
        assert(self.mirrored_reads() + Seq::<u8>::empty() =~= self.mirrored_reads());
        assert(self.mirrored_writes() + Seq::<u8>::empty() =~= self.mirrored_writes());
        if self.pending_reads().len() == 0 {
            assert(self.pending_reads() =~= Seq::<u8>::empty());
        }
        if self.pending_writes().len() == 0 {
            assert(self.pending_writes() =~= Seq::<u8>::empty());
        }
    }

    /// Create a new tee around `inner` that mirrors what is read to
    /// `read_log` and what is written to `write_log`.
    pub fn new(inner: T, read_log: L, write_log: L) -> (r: Self)
        requires
            inner.wf(),
            read_log.wf(),
            write_log.wf(),
        ensures
            r.wf(),
            r.wrapped() == inner,
            r.read_sink() == read_log,
            r.write_sink() == write_log,
            r.released() == 0,
            r.marks() == (Marks {
                received: inner@.received.len(),
                written: inner@.written.len(),
                read_sink: read_log@.written.len(),
                write_sink: write_log@.written.len(),
            }),
            r.observed_reads() == Seq::<u8>::empty(),
            r.observed_writes() == Seq::<u8>::empty(),
            r.pending_reads() == Seq::<u8>::empty(),
            r.pending_writes() == Seq::<u8>::empty(),
    {
        let r = DebugTube {
            marks: Ghost(
                Marks {
                    received: inner@.received.len(),
                    written: inner@.written.len(),
                    read_sink: read_log@.written.len(),
                    write_sink: write_log@.written.len(),
                },
            ),
            inner,
            read_log,
            write_log,
            read_queue: Vec::new(),
            write_queue: Vec::new(),
            read_buf_logged: 0,
        };
        proof {
            assert(r.observed_reads() =~= Seq::<u8>::empty());
            assert(r.observed_writes() =~= Seq::<u8>::empty());
            assert(r.mirrored_reads() =~= Seq::<u8>::empty());
            assert(r.mirrored_writes() =~= Seq::<u8>::empty());
        }
        r
    }

    /// Takes the tee apart: the wrapped channel, the read sink and the
    /// write sink. What still waited for a sink is dropped.
    pub fn into_parts(self) -> (r: (T, L, L))
        ensures
            r.0 == self.wrapped(),
            r.1 == self.read_sink(),
            r.2 == self.write_sink(),
    {
        (self.inner, self.read_log, self.write_log)
    }
}

impl<T: TubeRead + TubeWrite, L: TubeWrite> Stream for DebugTube<T, L> {
    /// The traffic of the wrapped channel. Of its lookahead only what the
    /// read sink has accepted counts.
    open spec fn view(&self) -> Traffic {
        Traffic {
            received: self.wrapped()@.received,
            buffered: self.wrapped()@.buffered.take(self.released() as int),
            written: self.wrapped()@.written,
            flushed: self.wrapped()@.flushed,
            closed: self.wrapped()@.closed,
            at_eof: self.wrapped()@.at_eof,
        }
    }

    open spec fn wf(&self) -> bool {
        self.inv()
    }
}

impl<T: TubeRead + TubeWrite, L: TubeWrite> TubeRead for DebugTube<T, L> {
    /// A read of the tee drains the read queue once; where that fails, so
    /// does the read, and the source is left alone. Else the read is a
    /// read of the source, and what it hands over and the read sink has
    /// not had by way of the lookahead joins the queue.
    open spec fn reads(
        &self,
        post: &Self,
        max_len: usize,
        got: Seq<u8>,
        r: Poll<Result<usize, TubeError>>,
    ) -> bool {
        &&& self.same_write_side(post)
        &&& {
            ||| match r {
                Poll::Ready(Err(err)) => {
                    &&& drains(
                        &self.read_sink(),
                        &post.read_sink(),
                        self.pending_reads(),
                        post.pending_reads(),
                        Err::<(), TubeError>(err),
                    )
                    &&& post.wrapped() == self.wrapped()
                    &&& post.released() == self.released()
                },
                _ => false,
            }
            ||| {
                let seen = if r matches Poll::Ready(Ok(_)) {
                    self@.read_from_lookahead(got.len())
                } else {
                    got.len() as int
                };
                let left = post.pending_reads().take(post.pending_reads().len() - (got.len() - seen));
                &&& drains(
                    &self.read_sink(),
                    &post.read_sink(),
                    self.pending_reads(),
                    left,
                    Ok::<(), TubeError>(()),
                )
                &&& self.wrapped().reads(&post.wrapped(), max_len, got, r)
                &&& post.pending_reads() == left + got.skip(seen)
                &&& post.released() == self.released() - (if r matches Poll::Ready(Ok(_)) {
                    seen
                } else {
                    0
                })
            }
        }
    }

    /// Offers the read sink what still waits for it, then reads from the
    /// source and queues for the sink what was read and had not reached it
    /// by way of the lookahead. An error of the sink comes before anything
    /// is read.
    #[verifier::rlimit(40)]
    fn poll_read(&mut self, buf: &mut Vec<u8>, max_len: usize) -> (r: Poll<Result<usize, TubeError>>)
        ensures
            final(self).marks() == old(self).marks(),
            final(self).read_sink()@.closed == old(self).read_sink()@.closed,
            final(self).write_sink()@.closed == old(self).write_sink()@.closed,
            final(self).write_sink() == old(self).write_sink(),
            final(self).pending_writes() == old(self).pending_writes(),
    {
        let ghost sink = self.read_log@.written;
        let ghost held = self.read_queue@;
        let outcome = drain(&mut self.read_log, &mut self.read_queue);
        proof {
            lemma_drained(
                sink,
                held,
                self.read_log@.written,
                self.read_queue@,
                self.marks@.read_sink as int,
            );
        }
        match outcome {
            Ok(()) => {},
            Err(err) => {
                return Poll::Ready(Err(err));
            },
        }
        let ghost before = self.inner@;
        let ghost queued = self.read_queue@;
        let ghost shown = before.buffered.take(self.read_buf_logged as int);
        proof {
            let nothing = buf@.skip(buf@.len() as int);
            assert(nothing =~= Seq::<u8>::empty());
            assert(queued.take(queued.len() as int) =~= queued);
            assert(queued + nothing.skip(0) =~= queued);
        }
        match self.inner.poll_read(buf, max_len) {
            Poll::Ready(Ok(n)) => {
                let seen = if n <= self.read_buf_logged {
                    n
                } else {
                    self.read_buf_logged
                };
                let end = buf.len();
                self.read_queue.extend_from_slice(slice_subrange(buf.as_slice(), end - (n - seen), end));
                self.read_buf_logged = self.read_buf_logged - seen;
                proof {
                    let from = self.marks@.received as int;
                    let got = buf@.skip(old(buf)@.len() as int);
                    let k = before.read_from_lookahead(got.len());
                    let rest = self.inner@.buffered.take(self.read_buf_logged as int);
                    assert(buf@.subrange(end - (n - seen), end as int) =~= got.skip(seen as int));
                    assert(self.read_queue@ =~= queued + got.skip(seen as int));
                    assert(self.read_queue@.take(queued.len() as int) =~= queued);
                    assert(shown.len() == old(self).read_buf_logged);
                    assert(got.take(seen as int) =~= got.take(k).take(seen as int));
                    assert(shown.take(seen as int) =~= before.buffered.take(k).take(seen as int));
                    assert(rest =~= shown.skip(seen as int));
                    assert(self.inner@.received.skip(from) =~= before.received.skip(from) + got);
                    lemma_read_mirrors(
                        self.read_log@.written.skip(self.marks@.read_sink as int),
                        queued,
                        before.received.skip(from),
                        shown,
                        got,
                        seen as int,
                    );
                }
                Poll::Ready(Ok(n))
            },
            Poll::Ready(Err(err)) => Poll::Ready(Err(err)),
            Poll::Pending => Poll::Pending,
        }
    }
}

/// What a fill of the tee answers where the source has shown `shown` and
/// the read sink has had the first `released` bytes of it: the end of the
/// stream where nothing is shown, nothing yet where nothing is released,
/// and else what is released.
pub open spec fn shows(shown: Seq<u8>, released: nat, r: Poll<Result<Seq<u8>, TubeError>>) -> bool {
    if shown.len() == 0 {
        r == Poll::Ready(Ok::<Seq<u8>, TubeError>(Seq::empty()))
    } else if released == 0 {
        r is Pending
    } else {
        r == Poll::Ready(Ok::<Seq<u8>, TubeError>(shown.take(released as int)))
    }
}

impl<T: TubeBufRead + TubeWrite, L: TubeWrite> TubeBufRead for DebugTube<T, L> {
    /// A fill of the tee drains the read queue once; where that fails, so
    /// does the fill, and the source is left alone. Else it fills the
    /// source, and where that does not complete or fails, so does the
    /// fill. Else, with nothing left in the queue, it offers the read sink
    /// what the source shows and the sink has not had: what the sink
    /// accepts is released, and where the sink fails, so does the fill.
    /// It shows what is released.
    open spec fn fills(&self, post: &Self, r: Poll<Result<Seq<u8>, TubeError>>) -> bool {
        let shown = post.wrapped()@.buffered;
        let fresh = shown.skip(self.released() as int);
        &&& self.same_write_side(post)
        &&& {
            ||| match r {
                Poll::Ready(Err(err)) => {
                    &&& drains(
                        &self.read_sink(),
                        &post.read_sink(),
                        self.pending_reads(),
                        post.pending_reads(),
                        Err::<(), TubeError>(err),
                    )
                    &&& post.wrapped() == self.wrapped()
                    &&& post.released() == self.released()
                },
                _ => false,
            }
            ||| exists|drained: L, left: Seq<u8>|
                {
                    &&& #[trigger] drains(
                        &self.read_sink(),
                        &drained,
                        self.pending_reads(),
                        left,
                        Ok::<(), TubeError>(()),
                    )
                    &&& post.pending_reads() == left
                    &&& {
                        ||| {
                            &&& !(r matches Poll::Ready(Ok(_)))
                            &&& self.wrapped().fills(&post.wrapped(), r)
                            &&& post.read_sink() == drained
                            &&& post.released() == self.released()
                        }
                        ||| {
                            &&& self.wrapped().fills(&post.wrapped(), Poll::Ready(Ok(shown)))
                            &&& post.released() >= self.released()
                            &&& if post.pending_reads().len() == 0 && shown.len() > self.released() {
                                ||| {
                                    &&& drained.writes(&post.read_sink(), fresh, Poll::Pending)
                                    &&& post.released() == self.released()
                                    &&& shows(shown, post.released(), r)
                                }
                                ||| {
                                    &&& drained.writes(
                                        &post.read_sink(),
                                        fresh,
                                        Poll::Ready(Ok((post.released() - self.released()) as usize)),
                                    )
                                    &&& shows(shown, post.released(), r)
                                }
                                ||| match r {
                                    Poll::Ready(Err(err)) => {
                                        &&& drained.writes(
                                            &post.read_sink(),
                                            fresh,
                                            Poll::Ready(Err(err)),
                                        )
                                        &&& post.released() == self.released()
                                    },
                                    _ => false,
                                }
                            } else {
                                &&& post.read_sink() == drained
                                &&& post.released() == self.released()
                                &&& shows(shown, post.released(), r)
                            }
                        }
                    }
                }
        }
    }

    /// Consuming from the tee is consuming from the source what the read
    /// sink has had.
    open spec fn consumes(&self, post: &Self, amt: usize) -> bool {
        &&& self.wrapped().consumes(&post.wrapped(), amt)
        &&& self.same_write_side(post)
        &&& post.read_sink() == self.read_sink()
        &&& post.pending_reads() == self.pending_reads()
        &&& post.released() == self.released() - amt
    }

    /// Offers the read sink what still waits for it, fills the lookahead
    /// of the source, offers the sink what the lookahead holds beyond what
    /// the sink has, and shows the caller as much as the sink has
    /// accepted. Until the sink has accepted a first byte there is nothing
    /// to show, and the attempt is pending.
    #[verifier::rlimit(60)]
    fn poll_fill_buf(&mut self) -> (r: Poll<Result<&[u8], TubeError>>)
        ensures
            final(self).marks() == old(self).marks(),
            final(self).read_sink()@.closed == old(self).read_sink()@.closed,
            final(self).write_sink()@.closed == old(self).write_sink()@.closed,
            final(self).write_sink() == old(self).write_sink(),
            final(self).pending_writes() == old(self).pending_writes(),
    {
        let ghost sink = self.read_log@.written;
        let ghost held = self.read_queue@;
        let outcome = drain(&mut self.read_log, &mut self.read_queue);
        proof {
            lemma_drained(
                sink,
                held,
                self.read_log@.written,
                self.read_queue@,
                self.marks@.read_sink as int,
            );
        }
        match outcome {
            Ok(()) => {},
            Err(err) => {
                return Poll::Ready(Err(err));
            },
        }
        let ghost before = self.inner@;
        let ghost logged = self.read_buf_logged;
        let ghost drained = self.read_log;
        assert(drains(
            &old(self).read_sink(),
            &drained,
            old(self).pending_reads(),
            self.read_queue@,
            Ok::<(), TubeError>(()),
        ));
        match self.inner.poll_fill_buf() {
            Poll::Ready(Ok(buf)) => {
                proof {
                    assert(buf@.take(logged as int) =~= before.buffered.take(logged as int));
                }
                if self.read_queue.len() == 0 && buf.len() > self.read_buf_logged {
                    let ghost mirrored = self.read_log@.written;
                    let mirror = self.read_log.poll_write(
                        slice_subrange(buf, self.read_buf_logged, buf.len()),
                    );
                    proof {
                        assert(buf@.subrange(logged as int, buf@.len() as int) =~= buf@.skip(
                            logged as int,
                        ));
                        assert(drained.writes(&self.read_log, buf@.skip(logged as int), mirror));
                    }
                    match mirror {
                        Poll::Ready(Ok(numb)) => {
                            self.read_buf_logged = self.read_buf_logged + numb;
                            proof {
                                let from = self.marks@.read_sink as int;
                                let more = buf@.subrange(logged as int, buf@.len() as int).take(
                                    numb as int,
                                );
                                assert(self.read_log@.written.skip(from) =~= mirrored.skip(from)
                                    + more);
                                assert(buf@.take(logged + numb) =~= buf@.take(logged as int)
                                    + more);
                                assert(self.read_queue@ =~= Seq::<u8>::empty());
                                assert(self.read_log@.written.skip(from) + self.read_queue@
                                    =~= (mirrored.skip(from) + self.read_queue@) + more);
                                assert(buf@.take(logged + numb).take(logged as int) =~= buf@.take(
                                    logged as int,
                                ));
                                let past = before.received.skip(self.marks@.received as int);
                                assert((past + buf@.take(logged as int)) + more =~= past
                                    + buf@.take(logged + numb));
                            }
                        },
                        Poll::Ready(Err(err)) => {
                            return Poll::Ready(Err(err));
                        },
                        Poll::Pending => {},
                    }
                }
                if buf.len() == 0 {
                    proof {
                        assert(buf@.take(0) =~= buf@);
                        assert(buf@ =~= Seq::<u8>::empty());
                        assert(self.read_log == drained);
                        assert(self.read_buf_logged == logged);
                    }
                    return Poll::Ready(Ok(buf));
                }
                if self.read_buf_logged == 0 {
                    proof {
                        assert(logged == 0);
                        assert(buf@.skip(0) =~= buf@);
                        assert(self.read_queue@.len() > 0 ==> self.read_log == drained);
                    }
                    return Poll::Pending;
                }
                proof {
                    let now = self.read_buf_logged as int;
                    assert(logged <= now <= buf@.len());
                    assert(buf@.subrange(0, now) =~= buf@.take(now));
                    assert(buf@.take(now).take(logged as int) =~= buf@.take(logged as int));
                }
                Poll::Ready(Ok(slice_subrange(buf, 0, self.read_buf_logged)))
            },
            Poll::Ready(Err(err)) => Poll::Ready(Err(err)),
            Poll::Pending => Poll::Pending,
        }
    }

    /// Consumes from the source. The read sink has these bytes already.
    fn consume(&mut self, amt: usize)
        ensures
            final(self).released() == old(self).released() - amt,
            final(self).marks() == old(self).marks(),
            final(self).read_sink()@.closed == old(self).read_sink()@.closed,
            final(self).write_sink()@.closed == old(self).write_sink()@.closed,
            final(self).read_sink() == old(self).read_sink(),
            final(self).write_sink() == old(self).write_sink(),
            final(self).pending_reads() == old(self).pending_reads(),
            final(self).pending_writes() == old(self).pending_writes(),
    {
        let ghost before = self.inner@;
        let ghost shown = before.buffered.take(self.read_buf_logged as int);
        self.read_buf_logged = self.read_buf_logged - amt;
        self.inner.consume(amt);
        proof {
            let from = self.marks@.received as int;
            let rest = self.inner@.buffered.take(self.read_buf_logged as int);
            assert(shown.take(amt as int) =~= before.buffered.take(amt as int));
            assert(rest =~= shown.skip(amt as int));
            assert(self.inner@.received.skip(from) =~= before.received.skip(from)
                + before.buffered.take(amt as int));
            assert(self.observed_reads() =~= before.received.skip(from) + shown);
        }
    }
}

impl<T: TubeRead + TubeWrite, L: TubeWrite> DebugTube<T, L> {
    /// The read side of the tee is in `post` what it is in `self`.
    pub open spec fn same_read_side(&self, post: &Self) -> bool {
        &&& post.marks() == self.marks()
        &&& post.released() == self.released()
        &&& post.read_sink() == self.read_sink()
        &&& post.pending_reads() == self.pending_reads()
    }

    /// The write side of the tee is in `post` what it is in `self`.
    pub open spec fn same_write_side(&self, post: &Self) -> bool {
        &&& post.marks() == self.marks()
        &&& post.write_sink() == self.write_sink()
        &&& post.pending_writes() == self.pending_writes()
    }
}

impl<T: TubeRead + TubeWrite, L: TubeWrite> TubeWrite for DebugTube<T, L> {
    /// A write to the tee drains the write queue once; where that fails,
    /// so does the write, and the destination is left alone. Else the
    /// write is a write to the destination, and what the destination
    /// accepts joins the queue.
    open spec fn writes(&self, post: &Self, data: Seq<u8>, r: Poll<Result<usize, TubeError>>) -> bool {
        &&& self.same_read_side(post)
        &&& post.marks() == self.marks()
        &&& {
            ||| match r {
                Poll::Ready(Err(err)) => {
                    &&& drains(
                        &self.write_sink(),
                        &post.write_sink(),
                        self.pending_writes(),
                        post.pending_writes(),
                        Err::<(), TubeError>(err),
                    )
                    &&& post.wrapped() == self.wrapped()
                },
                _ => false,
            }
            ||| {
                let fresh = match r {
                    Poll::Ready(Ok(n)) => data.take(n as int),
                    _ => Seq::<u8>::empty(),
                };
                let left = post.pending_writes().take(post.pending_writes().len() - fresh.len());
                &&& drains(
                    &self.write_sink(),
                    &post.write_sink(),
                    self.pending_writes(),
                    left,
                    Ok::<(), TubeError>(()),
                )
                &&& self.wrapped().writes(&post.wrapped(), data, r)
                &&& post.pending_writes() == left + fresh
            }
        }
    }

    /// A flush of the tee drains the write queue to the end; where that
    /// does not complete, neither does the flush, and where it fails, so
    /// does the flush. Else it flushes the write sink, likewise. Else the
    /// flush is a flush of the destination.
    open spec fn flushes(&self, post: &Self, r: Poll<Result<(), TubeError>>) -> bool {
        &&& self.same_read_side(post)
        &&& post.marks() == self.marks()
        &&& {
            ||| {
                &&& !(r matches Poll::Ready(Ok(_)))
                &&& drains_all(
                    &self.write_sink(),
                    &post.write_sink(),
                    self.pending_writes(),
                    post.pending_writes(),
                    r,
                )
                &&& post.wrapped() == self.wrapped()
            }
            ||| exists|drained: L|
                {
                    &&& #[trigger] drains_all(
                        &self.write_sink(),
                        &drained,
                        self.pending_writes(),
                        post.pending_writes(),
                        Poll::Ready(Ok::<(), TubeError>(())),
                    )
                    &&& {
                        ||| {
                            &&& !(r matches Poll::Ready(Ok(_)))
                            &&& drained.flushes(&post.write_sink(), r)
                            &&& post.wrapped() == self.wrapped()
                        }
                        ||| {
                            &&& drained.flushes(
                                &post.write_sink(),
                                Poll::Ready(Ok::<(), TubeError>(())),
                            )
                            &&& self.wrapped().flushes(&post.wrapped(), r)
                        }
                    }
                }
        }
    }

    /// A shutdown of the tee drains the write queue to the end, then the
    /// read queue; where either does not complete, neither does the
    /// shutdown, and where either fails, so does the shutdown. Else the
    /// shutdown is a shutdown of the destination. The sinks are drained,
    /// and never shut down.
    open spec fn shuts(&self, post: &Self, r: Poll<Result<(), TubeError>>) -> bool {
        let done = Poll::Ready(Ok::<(), TubeError>(()));
        &&& post.marks() == self.marks()
        &&& post.released() == self.released()
        &&& {
            ||| {
                &&& !(r matches Poll::Ready(Ok(_)))
                &&& drains_all(
                    &self.write_sink(),
                    &post.write_sink(),
                    self.pending_writes(),
                    post.pending_writes(),
                    r,
                )
                &&& post.read_sink() == self.read_sink()
                &&& post.pending_reads() == self.pending_reads()
                &&& post.wrapped() == self.wrapped()
            }
            ||| {
                &&& drains_all(
                    &self.write_sink(),
                    &post.write_sink(),
                    self.pending_writes(),
                    post.pending_writes(),
                    done,
                )
                &&& {
                    ||| {
                        &&& !(r matches Poll::Ready(Ok(_)))
                        &&& drains_all(
                            &self.read_sink(),
                            &post.read_sink(),
                            self.pending_reads(),
                            post.pending_reads(),
                            r,
                        )
                        &&& post.wrapped() == self.wrapped()
                    }
                    ||| {
                        &&& drains_all(
                            &self.read_sink(),
                            &post.read_sink(),
                            self.pending_reads(),
                            post.pending_reads(),
                            done,
                        )
                        &&& self.wrapped().shuts(&post.wrapped(), r)
                    }
                }
            }
        }
    }

    /// The tee has no way of its own to write from several buffers: what
    /// it mirrors has to be queued in one piece.
    open spec fn vectored(&self) -> bool {
        false
    }

    /// Offers the write sink what still waits for it, then writes to the
    /// destination and queues for the sink what the destination accepted.
    /// The caller is told what the destination accepted, whether or not
    /// the sink has caught up. An error of the sink comes before anything
    /// is written.
    fn poll_write(&mut self, buf: &[u8]) -> (r: Poll<Result<usize, TubeError>>)
        ensures
            final(self).released() == old(self).released(),
            final(self).marks() == old(self).marks(),
            final(self).read_sink()@.closed == old(self).read_sink()@.closed,
            final(self).write_sink()@.closed == old(self).write_sink()@.closed,
            final(self).read_sink() == old(self).read_sink(),
            final(self).pending_reads() == old(self).pending_reads(),
    {
        let ghost sink = self.write_log@.written;
        let ghost held = self.write_queue@;
        let outcome = drain(&mut self.write_log, &mut self.write_queue);
        proof {
            lemma_drained(
                sink,
                held,
                self.write_log@.written,
                self.write_queue@,
                self.marks@.write_sink as int,
            );
        }
        match outcome {
            Ok(()) => {},
            Err(err) => {
                return Poll::Ready(Err(err));
            },
        }
        let ghost before = self.inner@;
        let ghost queued = self.write_queue@;
        proof {
            assert(queued.take(queued.len() as int) =~= queued);
            assert(queued + Seq::<u8>::empty() =~= queued);
        }
        match self.inner.poll_write(buf) {
            Poll::Ready(Ok(numb)) => {
                self.write_queue.extend_from_slice(slice_subrange(buf, 0, numb));
                proof {
                    let from = self.marks@.written as int;
                    assert(self.write_queue@ =~= queued + buf@.take(numb as int));
                    assert(self.write_queue@.take(queued.len() as int) =~= queued);
                    assert(self.inner@.written.skip(from) =~= before.written.skip(from) + buf@.take(
                        numb as int,
                    ));
                    assert(self.mirrored_writes() + self.write_queue@ =~= (self.mirrored_writes()
                        + queued) + buf@.take(numb as int));
                }
                Poll::Ready(Ok(numb))
            },
            Poll::Ready(Err(err)) => Poll::Ready(Err(err)),
            Poll::Pending => Poll::Pending,
        }
    }

    /// Moves to the write sink all that waits for it, then flushes the
    /// sink, then the destination.
    fn poll_flush(&mut self) -> (r: Poll<Result<(), TubeError>>)
        ensures
            final(self).released() == old(self).released(),
            final(self).marks() == old(self).marks(),
            final(self).read_sink()@.closed == old(self).read_sink()@.closed,
            final(self).write_sink()@.closed == old(self).write_sink()@.closed,
            final(self).read_sink() == old(self).read_sink(),
            final(self).pending_reads() == old(self).pending_reads(),
            r matches Poll::Ready(Ok(_)) ==> final(self).pending_writes().len() == 0,
            r matches Poll::Ready(Ok(_)) ==> final(self).write_sink()@.flushed == final(self).write_sink()@.written.len(),
    {
        let ghost sink = self.write_log@.written;
        let ghost held = self.write_queue@;
        let outcome = drain_all(&mut self.write_log, &mut self.write_queue);
        proof {
            lemma_drained(
                sink,
                held,
                self.write_log@.written,
                self.write_queue@,
                self.marks@.write_sink as int,
            );
        }
        match outcome {
            Poll::Ready(Ok(())) => {},
            Poll::Ready(Err(err)) => {
                return Poll::Ready(Err(err));
            },
            Poll::Pending => {
                return Poll::Pending;
            },
        }
        let ghost drained = self.write_log;
        assert(drains_all(
            &old(self).write_log,
            &drained,
            old(self).write_queue@,
            self.write_queue@,
            Poll::Ready(Ok::<(), TubeError>(())),
        ));
        let flushed = self.write_log.poll_flush();
        assert(drained.flushes(&self.write_log, flushed));
        match flushed {
            Poll::Ready(Ok(done)) => {
                assert(done == ());
            },
            Poll::Ready(Err(err)) => {
                return Poll::Ready(Err(err));
            },
            Poll::Pending => {
                return Poll::Pending;
            },
        }
        assert(flushed == Poll::Ready(Ok::<(), TubeError>(())));
        let ghost destination = self.inner;
        let r = self.inner.poll_flush();
        proof {
            let done = Poll::Ready(Ok::<(), TubeError>(()));
            assert(drained.flushes(&self.write_log, done));
            assert(destination.flushes(&self.inner, r));
            assert(drains_all(
                &old(self).write_log,
                &drained,
                old(self).write_queue@,
                self.write_queue@,
                done,
            ));
        }
        r
    }

    /// Moves to both sinks all that waits for them, then shuts the
    /// destination down. The sinks stay open: they are their owner's to
    /// close.
    fn poll_shutdown(&mut self) -> (r: Poll<Result<(), TubeError>>)
        ensures
            final(self).released() == old(self).released(),
            final(self).marks() == old(self).marks(),
            final(self).read_sink()@.closed == old(self).read_sink()@.closed,
            final(self).write_sink()@.closed == old(self).write_sink()@.closed,
            r matches Poll::Ready(Ok(_)) ==> final(self).pending_writes().len() == 0,
            r matches Poll::Ready(Ok(_)) ==> final(self).pending_reads().len() == 0,
            final(self).pending_writes().len() > 0 || final(self).pending_reads().len() > 0
                ==> final(self)@.closed == old(self)@.closed,
    {
        let ghost sink = self.write_log@.written;
        let ghost held = self.write_queue@;
        let outcome = drain_all(&mut self.write_log, &mut self.write_queue);
        proof {
            lemma_drained(
                sink,
                held,
                self.write_log@.written,
                self.write_queue@,
                self.marks@.write_sink as int,
            );
        }
        match outcome {
            Poll::Ready(Ok(())) => {},
            Poll::Ready(Err(err)) => {
                return Poll::Ready(Err(err));
            },
            Poll::Pending => {
                return Poll::Pending;
            },
        }
        let ghost sink = self.read_log@.written;
        let ghost held = self.read_queue@;
        let outcome = drain_all(&mut self.read_log, &mut self.read_queue);
        proof {
            lemma_drained(
                sink,
                held,
                self.read_log@.written,
                self.read_queue@,
                self.marks@.read_sink as int,
            );
        }
        match outcome {
            Poll::Ready(Ok(())) => {},
            Poll::Ready(Err(err)) => {
                return Poll::Ready(Err(err));
            },
            Poll::Pending => {
                return Poll::Pending;
            },
        }
        self.inner.poll_shutdown()
    }
}

} // verus!
