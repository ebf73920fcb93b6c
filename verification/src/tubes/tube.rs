//! The tube: a channel with the high-level operations, a timeout, and a
//! journal of the bytes that cross it.
use std::time::Duration;
use vstd::prelude::*;
use vstd::slice::slice_subrange;
use crate::traits::{
    joined, recv_bytes, recv_read, writes_some, Poll, Stream, Traffic, TubeBufRead, TubeError, TubeRead, TubeWrite,
};
use crate::tubes::journal::{entries, record, Direction, Entry, Record};
use crate::utils::interactive::{Interactive, Phase};
use crate::utils::recv_until::RecvUntil;
use crate::utils::send::SendAll;
use crate::utils::send_line_after::SendLineAfter;
use crate::traits::NEW_LINE;

verus! {

/// A wrapper that provides the extra methods and is a channel itself, so
/// that tubes nest.
///
/// Whatever is read or written through it goes to the wrapped channel
/// unchanged; besides, each byte is entered once in the journal, on its
/// way in when it is first seen and on its way out when it is accepted.
/// The journal is a side channel: keeping it cannot fail an operation.
#[derive(Debug)]
pub struct Tube<T: TubeBufRead + TubeWrite> {
    /// The wrapped channel.
    pub inner: T,
    /// How long the operations made by this tube may take; `None` for no
    /// limit. It is the deadline of an operation, not of a raw attempt: an
    /// attempt cannot tell which operation it belongs to.
    pub timeout: Option<Duration>,
    /// How many bytes at the front of the wrapped channel's lookahead the
    /// tube has shown and entered in the journal. The tube keeps it.
    pub read_buf_logged: usize,
    /// What crossed the tube since the journal was last taken. The tube
    /// keeps it.
    pub journal: Vec<Record>,
}

/// The entries that a vectored write of `n` bytes from `bufs` leaves in
/// the journal: for each buffer in turn, as long as accepted bytes are
/// left to account for, the part of it that was accepted.
pub open spec fn vectored_entries(bufs: Seq<&[u8]>, n: nat) -> Seq<Entry>
    decreases bufs.len(),
{
    if n == 0 || bufs.len() == 0 {
        Seq::empty()
    } else {
        let k = if n <= bufs.first()@.len() {
            n
        } else {
            bufs.first()@.len()
        };
        seq![Entry { direction: Direction::Sent, bytes: bufs.first()@.take(k as int) }]
            + vectored_entries(bufs.drop_first(), (n - k) as nat)
    }
}

/// The bytes of all entries, one after another.
pub open spec fn bytes_of(entries: Seq<Entry>) -> Seq<u8>
    decreases entries.len(),
{
    if entries.len() == 0 {
        Seq::empty()
    } else {
        entries.first().bytes + bytes_of(entries.drop_first())
    }
}

/// The journal of a vectored write holds what was accepted, no more and no
/// less: its entries, joined, are the first `n` bytes of the buffers.
pub proof fn lemma_vectored_entries(bufs: Seq<&[u8]>, n: nat)
    requires
        n <= joined(bufs).len(),
    ensures
        bytes_of(vectored_entries(bufs, n)) == joined(bufs).take(n as int),
    decreases bufs.len(),
{
    if n == 0 || bufs.len() == 0 {
        assert(joined(bufs).take(0) =~= Seq::<u8>::empty());
    } else {
        let first = bufs.first()@;
        let k = if n <= first.len() {
            n
        } else {
            first.len()
        };
        let all = vectored_entries(bufs, n);
        lemma_vectored_entries(bufs.drop_first(), (n - k) as nat);
        assert(all.drop_first() =~= vectored_entries(bufs.drop_first(), (n - k) as nat));
        assert(joined(bufs).take(n as int) =~= first.take(k as int) + joined(
            bufs.drop_first(),
        ).take(n - k));
    }
}

impl<T: TubeBufRead + TubeWrite> Stream for Tube<T> {
    /// The traffic of the wrapped channel. Of its lookahead only what this
    /// tube has shown counts.
    open spec fn view(&self) -> Traffic {
        Traffic {
            received: self.wrapped()@.received,
            buffered: self.wrapped()@.buffered.take(self.mirrored() as int),
            written: self.wrapped()@.written,
            flushed: self.wrapped()@.flushed,
            closed: self.wrapped()@.closed,
            at_eof: self.wrapped()@.at_eof,
        }
    }

    open spec fn wf(&self) -> bool {
        &&& self.wrapped().wf()
        &&& self.mirrored() <= self.wrapped()@.buffered.len()
    }
}

impl<T: TubeBufRead + TubeWrite> Tube<T> {
    /// The wrapped channel.
    pub open spec fn wrapped(&self) -> T {
        self.inner
    }

    /// The timeout of the operations that this tube makes.
    pub open spec fn deadline(&self) -> Option<Duration> {
        self.timeout
    }

    /// How many bytes at the front of the wrapped channel's lookahead this
    /// tube has shown, and entered in the journal.
    pub open spec fn mirrored(&self) -> nat {
        self.read_buf_logged as nat
    }

    /// The journal: what crossed the tube since the journal was last
    /// taken, oldest first.
    pub open spec fn logged(&self) -> Seq<Entry> {
        entries(self.journal@)
    }

    /// Construct a new tube around `inner`, without a timeout.
    pub fn new(inner: T) -> (r: Self)
        ensures
            r.wrapped() == inner,
            r.deadline() is None,
            r.mirrored() == 0,
            r.logged() == Seq::<Entry>::empty(),
    {
        let r = Tube { inner, timeout: None, read_buf_logged: 0, journal: Vec::new() };
        assert(r.logged() =~= Seq::<Entry>::empty());
        r
    }

    /// Construct a new tube around `inner` whose operations may take
    /// `timeout`. The timeout covers the operations that this tube makes,
    /// not the attempts of the channel contract.
    pub fn with_timeout(inner: T, timeout: Duration) -> (r: Self)
        ensures
            r.wrapped() == inner,
            r.deadline() == Some(timeout),
            r.mirrored() == 0,
            r.logged() == Seq::<Entry>::empty(),
    {
        let r = Tube { inner, timeout: Some(timeout), read_buf_logged: 0, journal: Vec::new() };
        assert(r.logged() =~= Seq::<Entry>::empty());
        r
    }

    /// Construct a tube from a channel that buffers for itself.
    pub fn from_buffered(inner: T) -> (r: Self)
        ensures
            r.wrapped() == inner,
            r.deadline() is None,
            r.mirrored() == 0,
            r.logged() == Seq::<Entry>::empty(),
    {
        Self::new(inner)
    }

    /// Consume the tube to get back the wrapped channel.
    pub fn into_inner(self) -> (r: T)
        ensures
            r == self.wrapped(),
    {
        self.inner
    }

    /// Hands over the journal and starts a new one. The traffic is as it
    /// was.
    pub fn take_journal(&mut self) -> (r: Vec<Record>)
        ensures
            entries(r@) == old(self).logged(),
            final(self).logged() == Seq::<Entry>::empty(),
            final(self).wrapped() == old(self).wrapped(),
            final(self).deadline() == old(self).deadline(),
            final(self).mirrored() == old(self).mirrored(),
    {
        let mut taken: Vec<Record> = Vec::new();
        std::mem::swap(&mut taken, &mut self.journal);
        assert(self.logged() =~= Seq::<Entry>::empty());
        taken
    }

    /// Receive up to `len` bytes: one attempt-read. `expired` says that
    /// the deadline of the operation has passed; the result is then empty
    /// and the channel is left alone.
    ///
    /// The result is never longer than `len`. Asked for at least one byte,
    /// it is empty exactly when the deadline has passed or the channel is
    /// at end-of-stream. Before the deadline the outcome is that of one
    /// read of the tube.
    pub fn recv(&mut self, len: usize, expired: bool) -> (r: Poll<Result<Vec<u8>, TubeError>>)
        requires
            old(self).wf(),
        ensures
            final(self).wf(),
            final(self).deadline() == old(self).deadline(),
            expired ==> (r matches Poll::Ready(Ok(bytes)) && bytes@.len() == 0),
            len > 0 ==> (r matches Poll::Ready(Ok(bytes)) ==> (bytes@.len() == 0 <==> expired || old(self)@.at_eof)),
            expired ==> final(self).wrapped() == old(self).wrapped() && final(self).mirrored() == old(self).mirrored() && final(self).logged() == old(self).logged(),
            !expired ==> match r {
                Poll::Ready(Ok(bytes)) => {
                    &&& bytes@.len() <= len
                    &&& old(self)@.read(final(self)@, bytes@, len as nat)
                    &&& final(self).logged() == old(self).logged().push(
                        Entry {
                            direction: Direction::Received,
                            bytes: bytes@.skip(old(self)@.read_from_lookahead(bytes@.len())),
                        },
                    )
                },
                _ => old(self)@.still(final(self)@) && final(self).logged() == old(self).logged(),
            },
            !expired ==> old(self).reads(final(self), len, recv_bytes(r), recv_read(r)),
    {
        if expired {
            return Poll::Ready(Ok(Vec::new()));
        }
        let mut buf: Vec<u8> = Vec::new();
        match self.poll_read(&mut buf, len) {
            Poll::Ready(Ok(n)) => {
                let ghost filled = buf@;
                buf.truncate(n);
                proof {
                    assert(buf@ =~= filled);
                    assert(filled =~= filled.skip(0));
                }
                Poll::Ready(Ok(buf))
            },
            Poll::Ready(Err(err)) => {
                proof {
                    assert(buf@.skip(0) =~= Seq::<u8>::empty());
                }
                Poll::Ready(Err(err))
            },
            Poll::Pending => {
                proof {
                    assert(buf@.skip(0) =~= Seq::<u8>::empty());
                }
                Poll::Pending
            },
        }
    }

    /// Receive until a newline or the end of the stream: the receive-until
    /// of the one-byte pattern `NEW_LINE`, to be polled against this tube.
    pub fn recv_line(&self) -> (r: RecvUntil)
        ensures
            r.wf(),
            r.pattern() == seq![NEW_LINE],
            r.taken() == Seq::<u8>::empty(),
            !r.finished(),
    {
        let delims = [NEW_LINE];
        assert(delims@ =~= seq![NEW_LINE]);
        RecvUntil::new(delims.as_slice())
    }

    /// Receive until `delims` is found or the end of the stream is
    /// reached: the operation, to be polled against this tube.
    pub fn recv_until(&self, delims: &[u8]) -> (r: RecvUntil)
        requires
            delims@.len() > 0,
        ensures
            r.wf(),
            r.pattern() == delims@,
            r.taken() == Seq::<u8>::empty(),
            !r.finished(),
    {
        RecvUntil::new(delims)
    }

    /// Send `data` and flush: the operation, to be polled against this
    /// tube.
    pub fn send(&self, data: &[u8]) -> (r: SendAll)
        ensures
            r.wf(),
            r.payload() == data@,
            r.progress() == 0,
            !r.finished(),
    {
        SendAll::new(data)
    }

    /// Same as `send`, but a newline follows the data.
    pub fn send_line(&self, data: &[u8]) -> (r: SendAll)
        requires
            data@.len() < usize::MAX,
        ensures
            r.wf(),
            r.payload() == data@.push(NEW_LINE),
            r.progress() == 0,
            !r.finished(),
    {
        SendAll::line(data)
    }

    /// Send a line after receiving `pattern`: the operation, to be polled
    /// against this tube. Its result is what was received.
    pub fn send_line_after(&self, pattern: &[u8], data: &[u8]) -> (r: SendLineAfter)
        requires
            pattern@.len() > 0,
            data@.len() < usize::MAX,
        ensures
            r.wf(),
            r.recv.pattern() == pattern@,
            r.recv.taken() == Seq::<u8>::empty(),
            !r.recv.finished(),
            r.send.payload() == data@.push(NEW_LINE),
            r.send.progress() == 0,
            !r.send.finished(),
    {
        SendLineAfter::new(pattern, data)
    }
}

impl<T: TubeBufRead + TubeWrite> Tube<T> {
    /// Connect the tube to the console, so that it can be talked to
    /// directly: the bridge, to be stepped against this tube and the two
    /// sides of the console.
    pub fn interactive(&self) -> (r: Interactive)
        ensures
            r.phase() == Phase::Input,
    {
        Interactive::new()
    }
}

impl<T: TubeBufRead + TubeWrite> Tube<T> {
    /// The timeout, the journal and the count of what the lookahead has
    /// shown are in `post` what they are in `self`.
    pub open spec fn same_books(&self, post: &Self) -> bool {
        &&& post.deadline() == self.deadline()
        &&& post.mirrored() == self.mirrored()
        &&& post.logged() == self.logged()
    }
}

impl<T: TubeBufRead + TubeWrite> TubeRead for Tube<T> {
    /// A read of the tube is a read of the wrapped channel. What it hands
    /// over and the lookahead had not shown is entered in the journal.
    open spec fn reads(
        &self,
        post: &Self,
        max_len: usize,
        got: Seq<u8>,
        r: Poll<Result<usize, TubeError>>,
    ) -> bool {
        let seen = self@.read_from_lookahead(got.len());
        &&& self.wrapped().reads(&post.wrapped(), max_len, got, r)
        &&& if r matches Poll::Ready(Ok(_)) {
            &&& post.deadline() == self.deadline()
            &&& post.mirrored() == self.mirrored() - seen
            &&& post.logged() == self.logged().push(
                Entry { direction: Direction::Received, bytes: got.skip(seen) },
            )
        } else {
            self.same_books(post)
        }
    }

    /// Reads from the wrapped channel and enters in the journal what was
    /// read and had not been entered when the lookahead showed it.
    fn poll_read(&mut self, buf: &mut Vec<u8>, max_len: usize) -> (r: Poll<Result<usize, TubeError>>)
        ensures
            final(self).deadline() == old(self).deadline(),
            match r {
                Poll::Ready(Ok(n)) => final(self).logged() == old(self).logged().push(
                    Entry {
                        direction: Direction::Received,
                        bytes: final(buf)@.skip(
                            old(buf)@.len() + old(self)@.read_from_lookahead(n as nat),
                        ),
                    },
                ),
                _ => final(self).logged() == old(self).logged(),
            },
    {
        let olen = buf.len();
        let ghost before = self.inner@;
        match self.inner.poll_read(buf, max_len) {
            Poll::Ready(Ok(n)) => {
                let seen = if n <= self.read_buf_logged {
                    n
                } else {
                    self.read_buf_logged
                };
                let end = buf.len();
                record(
                    &mut self.journal,
                    Direction::Received,
                    slice_subrange(buf.as_slice(), end - (n - seen), end),
                );
                self.read_buf_logged = self.read_buf_logged - seen;
                proof {
                    let got = buf@.skip(olen as int);
                    let shown = before.buffered.take(old(self).mirrored() as int);
                    let k = if got.len() <= before.buffered.len() {
                        got.len()
                    } else {
                        before.buffered.len()
                    };
                    assert(buf@.subrange(olen + seen, buf@.len() as int) =~= buf@.skip(olen + seen));
                    assert(got.skip(seen as int) =~= buf@.skip(olen + seen));
                    assert(old(self)@.buffered.len() == old(self).mirrored());
                    assert(got.take(seen as int) =~= got.take(k as int).take(seen as int));
                    assert(shown.take(seen as int) =~= before.buffered.take(k as int).take(
                        seen as int,
                    ));
                    assert(self.inner@.buffered.take(self.mirrored() as int) =~= shown.skip(
                        seen as int,
                    ));
                }
                Poll::Ready(Ok(n))
            },
            Poll::Ready(Err(err)) => Poll::Ready(Err(err)),
            Poll::Pending => Poll::Pending,
        }
    }
}

impl<T: TubeBufRead + TubeWrite> TubeBufRead for Tube<T> {
    /// A fill of the tube is a fill of the wrapped channel. What it shows
    /// for the first time is entered in the journal.
    open spec fn fills(&self, post: &Self, r: Poll<Result<Seq<u8>, TubeError>>) -> bool {
        &&& self.wrapped().fills(&post.wrapped(), r)
        &&& match r {
            Poll::Ready(Ok(shown)) if shown.len() > self.mirrored() => {
                &&& post.deadline() == self.deadline()
                &&& post.mirrored() == shown.len()
                &&& post.logged() == self.logged().push(
                    Entry {
                        direction: Direction::Received,
                        bytes: shown.skip(self.mirrored() as int),
                    },
                )
            },
            _ => self.same_books(post),
        }
    }

    /// Consuming from the tube is consuming from the wrapped channel.
    open spec fn consumes(&self, post: &Self, amt: usize) -> bool {
        &&& self.wrapped().consumes(&post.wrapped(), amt)
        &&& post.deadline() == self.deadline()
        &&& post.mirrored() == self.mirrored() - amt
        &&& post.logged() == self.logged()
    }

    /// Shows the lookahead of the wrapped channel and enters in the
    /// journal what it had not shown before.
    fn poll_fill_buf(&mut self) -> (r: Poll<Result<&[u8], TubeError>>)
        ensures
            final(self).deadline() == old(self).deadline(),
            match r {
                Poll::Ready(Ok(shown)) => final(self).logged() == if shown@.len() > old(self).mirrored() {
                    old(self).logged().push(
                        Entry {
                            direction: Direction::Received,
                            bytes: shown@.skip(old(self).mirrored() as int),
                        },
                    )
                } else {
                    old(self).logged()
                },
                _ => final(self).logged() == old(self).logged(),
            },
    {
        let ghost before = self.inner@;
        match self.inner.poll_fill_buf() {
            Poll::Ready(Ok(buf)) => {
                proof {
                    assert(buf@.take(buf@.len() as int) =~= buf@);
                    assert(buf@.take(old(self).mirrored() as int) =~= before.buffered.take(
                        old(self).mirrored() as int,
                    ));
                }
                if buf.len() > self.read_buf_logged {
                    record(
                        &mut self.journal,
                        Direction::Received,
                        slice_subrange(buf, self.read_buf_logged, buf.len()),
                    );
                    self.read_buf_logged = buf.len();
                    proof {
                        assert(buf@.subrange(old(self).mirrored() as int, buf@.len() as int)
                            =~= buf@.skip(old(self).mirrored() as int));
                    }
                }
                Poll::Ready(Ok(buf))
            },
            Poll::Ready(Err(err)) => Poll::Ready(Err(err)),
            Poll::Pending => Poll::Pending,
        }
    }

    /// Consumes from the wrapped channel. The bytes were entered in the
    /// journal when the lookahead showed them.
    fn consume(&mut self, amt: usize)
        ensures
            final(self).deadline() == old(self).deadline(),
            final(self).logged() == old(self).logged(),
            final(self).mirrored() == old(self).mirrored() - amt,
    {
        let ghost before = self.inner@;
        self.read_buf_logged = self.read_buf_logged - amt;
        self.inner.consume(amt);
        proof {
            let shown = before.buffered.take(old(self).mirrored() as int);
            assert(shown.take(amt as int) =~= before.buffered.take(amt as int));
            assert(self.inner@.buffered.take(self.mirrored() as int) =~= shown.skip(amt as int));
        }
    }
}

impl<T: TubeBufRead + TubeWrite> TubeWrite for Tube<T> {
    /// A write to the tube is a write to the wrapped channel. What the
    /// channel accepts is entered in the journal.
    open spec fn writes(&self, post: &Self, data: Seq<u8>, r: Poll<Result<usize, TubeError>>) -> bool {
        &&& self.wrapped().writes(&post.wrapped(), data, r)
        &&& post.deadline() == self.deadline()
        &&& post.mirrored() == self.mirrored()
        &&& post.logged() == match r {
            Poll::Ready(Ok(n)) => self.logged().push(
                Entry { direction: Direction::Sent, bytes: data.take(n as int) },
            ),
            _ => self.logged(),
        }
    }

    /// A flush of the tube is a flush of the wrapped channel.
    open spec fn flushes(&self, post: &Self, r: Poll<Result<(), TubeError>>) -> bool {
        self.wrapped().flushes(&post.wrapped(), r) && self.same_books(post)
    }

    /// A shutdown of the tube is a shutdown of the wrapped channel.
    open spec fn shuts(&self, post: &Self, r: Poll<Result<(), TubeError>>) -> bool {
        self.wrapped().shuts(&post.wrapped(), r) && self.same_books(post)
    }

    /// The tube has a way of its own to write from several buffers: that
    /// of the wrapped channel, with one entry in the journal for each
    /// buffer that had a part in it.
    open spec fn vectored(&self) -> bool {
        true
    }

    open spec fn writes_vectored(
        &self,
        post: &Self,
        bufs: Seq<&[u8]>,
        r: Poll<Result<usize, TubeError>>,
    ) -> bool {
        &&& writes_some(&self.wrapped(), &post.wrapped(), bufs, r)
        &&& post.deadline() == self.deadline()
        &&& post.mirrored() == self.mirrored()
        &&& post.logged() == match r {
            Poll::Ready(Ok(n)) => self.logged() + vectored_entries(bufs, n as nat),
            _ => self.logged(),
        }
    }

    /// Writes to the wrapped channel and enters in the journal what it
    /// accepted.
    fn poll_write(&mut self, buf: &[u8]) -> (r: Poll<Result<usize, TubeError>>)
        ensures
            final(self).deadline() == old(self).deadline(),
            final(self).mirrored() == old(self).mirrored(),
            match r {
                Poll::Ready(Ok(n)) => final(self).logged() == old(self).logged().push(
                    Entry { direction: Direction::Sent, bytes: buf@.take(n as int) },
                ),
                _ => final(self).logged() == old(self).logged(),
            },
    {
        match self.inner.poll_write(buf) {
            Poll::Ready(Ok(numb)) => {
                record(&mut self.journal, Direction::Sent, slice_subrange(buf, 0, numb));
                Poll::Ready(Ok(numb))
            },
            Poll::Ready(Err(err)) => Poll::Ready(Err(err)),
            Poll::Pending => Poll::Pending,
        }
    }

    fn poll_flush(&mut self) -> (r: Poll<Result<(), TubeError>>)
        ensures
            final(self).deadline() == old(self).deadline(),
            final(self).mirrored() == old(self).mirrored(),
            final(self).logged() == old(self).logged(),
    {
        self.inner.poll_flush()
    }

    fn poll_shutdown(&mut self) -> (r: Poll<Result<(), TubeError>>)
        ensures
            final(self).deadline() == old(self).deadline(),
            final(self).mirrored() == old(self).mirrored(),
            final(self).logged() == old(self).logged(),
    {
        self.inner.poll_shutdown()
    }

    /// Writes from several buffers to the wrapped channel and enters in
    /// the journal, buffer by buffer, what it accepted.
    fn poll_write_vectored(&mut self, bufs: &[&[u8]]) -> (r: Poll<Result<usize, TubeError>>)
        ensures
            final(self).deadline() == old(self).deadline(),
            final(self).mirrored() == old(self).mirrored(),
            match r {
                Poll::Ready(Ok(n)) => final(self).logged() == old(self).logged()
                    + vectored_entries(bufs@, n as nat),
                _ => final(self).logged() == old(self).logged(),
            },
    {
        let numb = match self.inner.poll_write_vectored(bufs) {
            Poll::Ready(Ok(numb)) => numb,
            Poll::Ready(Err(err)) => {
                return Poll::Ready(Err(err));
            },
            Poll::Pending => {
                return Poll::Pending;
            },
        };
        let mut to_log = numb;
        let mut i: usize = 0;
        let ghost channel = self.inner;
        proof {
            assert(bufs@.skip(0) =~= bufs@);
            assert(self.logged() + vectored_entries(bufs@.skip(bufs@.len() as int), 0)
                =~= self.logged());
        }
        while i < bufs.len() && to_log != 0
            invariant
                i <= bufs@.len(),
                self.inner == channel,
                self.read_buf_logged == old(self).read_buf_logged,
                self.timeout == old(self).timeout,
                self.logged() + vectored_entries(bufs@.skip(i as int), to_log as nat) == old(self).logged() + vectored_entries(bufs@, numb as nat),
            decreases bufs@.len() - i,
        {
            let buf = bufs[i];
            let k = if to_log <= buf.len() {
                to_log
            } else {
                buf.len()
            };
            let ghost logged = self.logged();
            record(&mut self.journal, Direction::Sent, slice_subrange(buf, 0, k));
            proof {
                let rest = bufs@.skip(i as int);
                assert(rest.first() == bufs@[i as int]);
                assert(rest.drop_first() =~= bufs@.skip(i + 1));
                assert(buf@.subrange(0, k as int) =~= buf@.take(k as int));
                let entry = Entry { direction: Direction::Sent, bytes: buf@.take(k as int) };
                assert(logged.push(entry) + vectored_entries(
                    bufs@.skip(i + 1),
                    (to_log - k) as nat,
                ) =~= logged + (seq![entry] + vectored_entries(
                    bufs@.skip(i + 1),
                    (to_log - k) as nat,
                )));
            }
            to_log = to_log - k;
            i += 1;
        }
        proof {
            assert(vectored_entries(bufs@.skip(i as int), to_log as nat) =~= Seq::<Entry>::empty());
            assert(self.logged() + Seq::<Entry>::empty() =~= self.logged());
        }
        Poll::Ready(Ok(numb))
    }

    /// The answer of the wrapped channel.
    fn is_write_vectored(&self) -> (r: bool)
        ensures
            r ==> self.wrapped().vectored(),
    {
        self.inner.is_write_vectored()
    }
}

} // verus!
