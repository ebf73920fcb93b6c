//! An in-memory duplex channel that hands back what was written to it.
use vstd::prelude::*;
use vstd::slice::slice_subrange;
use crate::traits::{
    Poll, Stream, Traffic, TubeBufRead, TubeError, TubeRead, TubeWrite, NEW_LINE,
};
use crate::utils::automaton::{ends_with, lemma_until_unique, until};

verus! {

/// A pipe whose two ends meet: bytes written are queued, up to a capacity,
/// and read back in order. Once shut down it accepts nothing more, and
/// reports end-of-stream when the queue has run dry.
pub struct Loopback {
    queue: Vec<u8>,
    capacity: usize,
    closed: bool,
    shown: Ghost<nat>,
    received: Ghost<Seq<u8>>,
    written: Ghost<Seq<u8>>,
}

/// The lesser of two numbers.
pub open spec fn least(a: int, b: int) -> int {
    if a <= b {
        a
    } else {
        b
    }
}

impl Stream for Loopback {
    closed spec fn view(&self) -> Traffic {
        Traffic {
            received: self.received@,
            buffered: self.queue@.take(self.shown@ as int),
            written: self.written@,
            flushed: self.written@.len(),
            closed: self.closed,
            at_eof: self.closed && self.queue@.len() == 0,
        }
    }

    closed spec fn wf(&self) -> bool {
        &&& self.shown@ <= self.queue@.len()
        &&& self.queue@.len() <= self.capacity
        &&& self.written@ == self.received@ + self.queue@
    }
}

impl Loopback {
    /// The bytes written and not yet read.
    pub closed spec fn pending(&self) -> Seq<u8> {
        self.queue@
    }

    /// The most bytes that the queue holds at once.
    pub closed spec fn limit(&self) -> nat {
        self.capacity as nat
    }

    /// Whether the writing side has been shut down.
    pub closed spec fn is_closed(&self) -> bool {
        self.closed
    }

    /// What ties the queue to the traffic: all that was written was either
    /// received or is still pending, and the lookahead is the front of the
    /// queue.
    pub proof fn lemma_pending(&self)
        requires
            self.wf(),
        ensures
            self@.written == self@.received + self.pending(),
            self@.buffered.len() <= self.pending().len(),
            self@.buffered == self.pending().take(self@.buffered.len() as int),
            self.pending().len() <= self.limit(),
            self@.at_eof <==> self.is_closed() && self.pending().len() == 0,
            self@.closed == self.is_closed(),
            self@.flushed == self@.written.len(),
    {
    }

    /// An empty, open pipe that queues at most `capacity` bytes.
    pub fn new(capacity: usize) -> (r: Self)
        ensures
            r.wf(),
            r.pending() == Seq::<u8>::empty(),
            r.limit() == capacity,
            !r.is_closed(),
            r@.received == Seq::<u8>::empty(),
            r@.buffered == Seq::<u8>::empty(),
            r@.written == Seq::<u8>::empty(),
    {
        Loopback {
            queue: Vec::new(),
            capacity,
            closed: false,
            shown: Ghost(0),
            received: Ghost(Seq::empty()),
            written: Ghost(Seq::empty()),
        }
    }
}

/// Receive-until on a pipe: where the pipe held `stream`, nothing was
/// written meanwhile, and a receive-until of `pattern` has completed, on a
/// match or at the end of the stream, with `taken`, then `taken` is the
/// shortest prefix of `stream` that ends with `pattern`, or all of it
/// where the pattern does not occur, and the pipe is left holding the
/// rest: the next receive starts where this one stopped.
pub proof fn lemma_recv_until_on_pipe(
    before: Loopback,
    after: Loopback,
    pattern: Seq<u8>,
    stream: Seq<u8>,
    taken: Seq<u8>,
)
    requires
        before.wf(),
        after.wf(),
        pattern.len() > 0,
        before.pending() == stream,
        after@.written == before@.written,
        after@.received == before@.received + taken,
        until(pattern, taken) == taken,
        ends_with(taken, pattern) || after@.at_eof,
    ensures
        taken == until(pattern, stream),
        after.pending() == stream.skip(taken.len() as int),
        taken + after.pending() == stream,
{
    let past = before@.received;
    before.lemma_pending();
    after.lemma_pending();
    assert(past + stream == (past + taken) + after.pending());
    assert(stream =~= taken + after.pending()) by {
        assert((past + stream).skip(past.len() as int) =~= stream);
        assert(((past + taken) + after.pending()).skip(past.len() as int) =~= taken
            + after.pending());
    }
    assert(after.pending() =~= stream.skip(taken.len() as int));
    if ends_with(taken, pattern) {
        assert(stream.take(taken.len() as int) =~= taken);
        lemma_until_unique(pattern, stream, taken);
    } else {
        assert(after.pending() =~= Seq::<u8>::empty());
        assert(stream =~= taken);
    }
}

/// A line sent into an empty pipe comes back as it was sent: where the
/// pipe held nothing, `data` holds no newline, a send of `data` as a line
/// has completed and a receive of a line has then completed with `line`,
/// `line` is `data` and one newline after it.
pub proof fn lemma_line_round_trip(
    before: Loopback,
    between: Loopback,
    after: Loopback,
    data: Seq<u8>,
    line: Seq<u8>,
)
    requires
        before.wf(),
        between.wf(),
        after.wf(),
        before.pending().len() == 0,
        !data.contains(NEW_LINE),
        between@.written == before@.written + data.push(NEW_LINE),
        between@.received == before@.received,
        after@.written == between@.written,
        after@.received == between@.received + line,
        ends_with(line, seq![NEW_LINE]) || after@.at_eof,
    ensures
        line == data.push(NEW_LINE),
{
    let sent = data.push(NEW_LINE);
    let past = before@.received;
    before.lemma_pending();
    after.lemma_pending();
    assert(before.pending() =~= Seq::<u8>::empty());
    assert(past + sent == (past + line) + after.pending()) by {
        assert(before@.written =~= past);
    }
    assert(sent =~= line + after.pending()) by {
        assert((past + sent).skip(past.len() as int) =~= sent);
        assert(((past + line) + after.pending()).skip(past.len() as int) =~= line + after.pending());
    }
    if after.pending().len() > 0 {
        let p = seq![NEW_LINE];
        assert(p[0] == line[line.len() - 1 + 0]);
        assert(sent[line.len() - 1] == line[line.len() - 1]);
        assert(data[line.len() - 1] == NEW_LINE);
    }
    assert(line =~= sent);
}

impl Loopback {
    /// The pipe is as large and as open in `post` as it is in `self`.
    pub open spec fn same_pipe(&self, post: &Self) -> bool {
        &&& post.limit() == self.limit()
        &&& post.is_closed() == self.is_closed()
    }
}

impl TubeRead for Loopback {
    /// A read of the pipe is not ready where the pipe is dry and open and
    /// a byte is asked for. Else it completes, and hands over as much of
    /// what is pending as was asked for.
    open spec fn reads(
        &self,
        post: &Self,
        max_len: usize,
        got: Seq<u8>,
        r: Poll<Result<usize, TubeError>>,
    ) -> bool {
        let n = least(max_len as int, self.pending().len() as int);
        &&& self.same_pipe(post)
        &&& if self.pending().len() == 0 && !self.is_closed() && max_len > 0 {
            &&& r is Pending
            &&& got.len() == 0
            &&& post.pending() == self.pending()
        } else {
            &&& r == Poll::Ready(Ok::<usize, TubeError>(n as usize))
            &&& got == self.pending().take(n)
            &&& post.pending() == self.pending().skip(n)
        }
    }

    fn poll_read(&mut self, buf: &mut Vec<u8>, max_len: usize) -> (r: Poll<Result<usize, TubeError>>)
        ensures
            r is Pending <==> old(self).pending().len() == 0 && !old(self).is_closed() && max_len > 0,
            match r {
                Poll::Ready(res) => res == Ok::<usize, TubeError>(
                    least(max_len as int, old(self).pending().len() as int) as usize,
                ),
                Poll::Pending => true,
            },
            final(self).pending() == old(self).pending().skip(final(buf)@.len() - old(buf)@.len()),
            final(self).limit() == old(self).limit(),
            final(self).is_closed() == old(self).is_closed(),
    {
        let have = self.queue.len();
        if max_len == 0 || have == 0 {
            if max_len > 0 && !self.closed {
                return Poll::Pending;
            }
            proof {
                let got = buf@.skip(buf@.len() as int);
                assert(got =~= Seq::<u8>::empty());
                assert(buf@.take(buf@.len() as int) =~= buf@);
                assert(self@.received + got =~= self@.received);
                assert(self@.buffered.skip(0) =~= self@.buffered);
                assert(got.take(0) =~= self@.buffered.take(0));
                assert(self.queue@.skip(0) =~= self.queue@);
                assert(self.queue@.take(0) =~= got);
            }
            return Poll::Ready(Ok(0));
        }
        let n: usize = if max_len <= have { max_len } else { have };
        let ghost before = buf@;
        let ghost queued = self.queue@;
        let rest = self.queue.split_off(n);
        buf.append(&mut self.queue);
        self.queue = rest;
        proof {
            let k = if n <= self.shown@ { n as nat } else { self.shown@ };
            self.shown@ = (self.shown@ - k) as nat;
            self.received@ = self.received@ + queued.take(n as int);
            assert(buf@.skip(before.len() as int) =~= queued.take(n as int));
            assert(buf@.take(before.len() as int) =~= before);
            assert(queued =~= queued.take(n as int) + self.queue@);
            assert(self.written@ =~= self.received@ + self.queue@);
            assert(queued.take(n as int).take(k as int) =~= queued.take(old(self).shown@ as int).take(k as int));
            assert(self.queue@.take(self.shown@ as int) =~= queued.take(old(self).shown@ as int).skip(k as int));
        }
        Poll::Ready(Ok(n))
    }
}

impl TubeBufRead for Loopback {
    /// A fill of the pipe is not ready where the pipe is dry and open.
    /// Else it completes, and shows all that is pending.
    open spec fn fills(&self, post: &Self, r: Poll<Result<Seq<u8>, TubeError>>) -> bool {
        &&& self.same_pipe(post)
        &&& post.pending() == self.pending()
        &&& if self.pending().len() == 0 && !self.is_closed() {
            r is Pending
        } else {
            r == Poll::Ready(Ok::<Seq<u8>, TubeError>(self.pending()))
        }
    }

    /// Consuming takes the bytes from the front of what is pending.
    open spec fn consumes(&self, post: &Self, amt: usize) -> bool {
        &&& self.same_pipe(post)
        &&& post.pending() == self.pending().skip(amt as int)
    }

    fn poll_fill_buf(&mut self) -> (r: Poll<Result<&[u8], TubeError>>)
        ensures
            r is Pending <==> old(self).pending().len() == 0 && !old(self).is_closed(),
            match r {
                Poll::Ready(Ok(shown)) => shown@ == old(self).pending(),
                Poll::Ready(Err(_)) => false,
                Poll::Pending => true,
            },
            final(self).pending() == old(self).pending(),
            final(self).limit() == old(self).limit(),
            final(self).is_closed() == old(self).is_closed(),
    {
        if self.queue.len() == 0 && !self.closed {
            return Poll::Pending;
        }
        proof {
            self.shown@ = self.queue@.len();
            assert(self.queue@.take(self.queue@.len() as int) =~= self.queue@);
        }
        Poll::Ready(Ok(self.queue.as_slice()))
    }

    fn consume(&mut self, amt: usize)
        ensures
            final(self).pending() == old(self).pending().skip(amt as int),
            final(self).limit() == old(self).limit(),
            final(self).is_closed() == old(self).is_closed(),
    {
        let ghost queued = self.queue@;
        let rest = self.queue.split_off(amt);
        self.queue = rest;
        proof {
            self.shown@ = (self.shown@ - amt) as nat;
            self.received@ = self.received@ + queued.take(amt as int);
            assert(queued =~= queued.take(amt as int) + self.queue@);
            assert(self.written@ =~= self.received@ + self.queue@);
            assert(queued.take(old(self).shown@ as int).take(amt as int) =~= queued.take(amt as int));
            assert(self.queue@.take(self.shown@ as int) =~= queued.take(old(self).shown@ as int).skip(amt as int));
        }
    }
}

impl TubeWrite for Loopback {
    /// A write to the pipe fails once the pipe is shut down, and is not
    /// ready where the pipe is full and there is a byte to write. Else it
    /// completes, and accepts as much of the data as the pipe has room
    /// for.
    open spec fn writes(&self, post: &Self, data: Seq<u8>, r: Poll<Result<usize, TubeError>>) -> bool {
        let n = least(data.len() as int, self.limit() - self.pending().len());
        &&& self.same_pipe(post)
        &&& if self.is_closed() {
            &&& r == Poll::Ready(Err::<usize, TubeError>(TubeError::BrokenPipe))
            &&& post.pending() == self.pending()
        } else if data.len() > 0 && self.pending().len() == self.limit() {
            &&& r is Pending
            &&& post.pending() == self.pending()
        } else {
            &&& r == Poll::Ready(Ok::<usize, TubeError>(n as usize))
            &&& post.pending() == self.pending() + data.take(n)
        }
    }

    /// A flush of the pipe completes at once: what the pipe has accepted
    /// is where it goes.
    open spec fn flushes(&self, post: &Self, r: Poll<Result<(), TubeError>>) -> bool {
        &&& self.same_pipe(post)
        &&& post.pending() == self.pending()
        &&& r == Poll::Ready(Ok::<(), TubeError>(()))
    }

    /// A shutdown of the pipe completes at once, and leaves what is
    /// pending to be read.
    open spec fn shuts(&self, post: &Self, r: Poll<Result<(), TubeError>>) -> bool {
        &&& post.limit() == self.limit()
        &&& post.is_closed()
        &&& post.pending() == self.pending()
        &&& r == Poll::Ready(Ok::<(), TubeError>(()))
    }

    /// The pipe has no way of its own to write from several buffers.
    open spec fn vectored(&self) -> bool {
        false
    }

    fn poll_write(&mut self, buf: &[u8]) -> (r: Poll<Result<usize, TubeError>>)
        ensures
            r is Pending <==> !old(self).is_closed() && buf@.len() > 0 && old(self).pending().len()
                == old(self).limit(),
            match r {
                Poll::Ready(Ok(n)) => {
                    &&& !old(self).is_closed()
                    &&& n == least(buf@.len() as int, old(self).limit() - old(self).pending().len())
                    &&& final(self).pending() == old(self).pending() + buf@.take(n as int)
                },
                Poll::Ready(Err(e)) => {
                    &&& old(self).is_closed()
                    &&& e is BrokenPipe
                    &&& final(self).pending() == old(self).pending()
                },
                Poll::Pending => final(self).pending() == old(self).pending(),
            },
            final(self).limit() == old(self).limit(),
            final(self).is_closed() == old(self).is_closed(),
    {
        if self.closed {
            return Poll::Ready(Err(TubeError::BrokenPipe));
        }
        let room = self.capacity - self.queue.len();
        if buf.len() == 0 {
            proof {
                assert(self.queue@ + buf@.take(0) =~= self.queue@);
                assert(self.written@ + buf@.take(0) =~= self.written@);
            }
            return Poll::Ready(Ok(0));
        }
        if room == 0 {
            return Poll::Pending;
        }
        let n: usize = if buf.len() <= room { buf.len() } else { room };
        let ghost queued = self.queue@;
        self.queue.extend_from_slice(slice_subrange(buf, 0, n));
        proof {
            self.written@ = self.written@ + buf@.take(n as int);
            assert(self.queue@ =~= queued + buf@.take(n as int));
            assert(self.queue@.take(self.shown@ as int) =~= queued.take(self.shown@ as int));
            assert(self.written@ =~= self.received@ + self.queue@);
        }
        Poll::Ready(Ok(n))
    }

    fn poll_flush(&mut self) -> (r: Poll<Result<(), TubeError>>)
        ensures
            r matches Poll::Ready(Ok(_)),
            final(self).pending() == old(self).pending(),
            final(self).limit() == old(self).limit(),
            final(self).is_closed() == old(self).is_closed(),
    {
        Poll::Ready(Ok(()))
    }

    fn poll_shutdown(&mut self) -> (r: Poll<Result<(), TubeError>>)
        ensures
            r matches Poll::Ready(Ok(_)),
            final(self).pending() == old(self).pending(),
            final(self).limit() == old(self).limit(),
            final(self).is_closed(),
    {
        self.closed = true;
        Poll::Ready(Ok(()))
    }
}

} // verus!
