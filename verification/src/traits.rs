//! The duplex stream contract: attempt-read, attempt-write and the
//! fill/consume pair of a lookahead buffer.
use vstd::prelude::*;
use crate::utils::recv_until::RecvUntil;
use crate::utils::send::SendAll;
use crate::utils::send_line_after::SendLineAfter;

verus! {

/// The line terminator of `recv_line` and `send_line`.
pub const NEW_LINE: u8 = 0xA;

/// The error type of the operating system's transport, carried through
/// unchanged. Nothing is known of a value of it.
#[verifier::external_type_specification]
#[verifier::external_body]
pub struct ExIoError(std::io::Error);

/// Why an attempt failed.
#[derive(Debug)]
pub enum TubeError {
    /// The transport under the channel reported a failure.
    Io(std::io::Error),
    /// The other end of the channel is gone.
    BrokenPipe,
    /// The destination took no byte of a write that had bytes to give.
    WriteZero,
}

/// The outcome of one non-blocking attempt.
#[derive(Debug)]
pub enum Poll<T> {
    /// The attempt completed.
    Ready(T),
    /// The channel could not proceed; nothing was done, try again later.
    Pending,
}

/// What proofs know of a channel: its traffic so far and its lookahead.
pub ghost struct Traffic {
    /// Every byte handed to the reader so far, oldest first.
    pub received: Seq<u8>,
    /// Bytes shown by the last fill and not consumed since.
    pub buffered: Seq<u8>,
    /// Every byte accepted from the writer so far, oldest first.
    pub written: Seq<u8>,
    /// How many of the bytes written were pushed through to their
    /// destination by the last flush that completed.
    pub flushed: nat,
    /// Whether a shutdown of the writing side has completed.
    pub closed: bool,
    /// Whether the source has nothing more to give.
    pub at_eof: bool,
}

impl Traffic {
    /// No byte moved between `self` and `post`.
    pub open spec fn unmoved(self, post: Traffic) -> bool {
        &&& post.received == self.received
        &&& post.buffered == self.buffered
        &&& post.written == self.written
    }

    /// No byte moved between `self` and `post`, and the writing side is
    /// as open as it was.
    pub open spec fn still(self, post: Traffic) -> bool {
        &&& self.unmoved(post)
        &&& post.closed == self.closed
    }

    /// How many of `n` bytes read come out of the lookahead: as many as it
    /// holds, at most.
    pub open spec fn read_from_lookahead(self, n: nat) -> int {
        if n <= self.buffered.len() {
            n as int
        } else {
            self.buffered.len() as int
        }
    }

    /// `post` follows `self` by a completed read that delivered `got` on a
    /// request for at most `max_len` bytes.
    ///
    /// Bytes leave in order: what the lookahead held goes out first. A
    /// request for at least one byte is answered with none exactly at
    /// end-of-stream.
    pub open spec fn read(self, post: Traffic, got: Seq<u8>, max_len: nat) -> bool {
        let k = self.read_from_lookahead(got.len());
        &&& got.len() <= max_len
        &&& post.received == self.received + got
        &&& post.written == self.written
        &&& post.closed == self.closed
        &&& got.take(k) == self.buffered.take(k)
        &&& post.buffered == self.buffered.skip(k)
        &&& max_len > 0 ==> (got.len() == 0 <==> self.at_eof)
    }

    /// `post` follows `self` by a completed fill that showed `shown`.
    ///
    /// What was shown before is shown again, possibly with more behind it;
    /// an empty buffer is shown exactly at end-of-stream, which then lasts.
    pub open spec fn filled(self, post: Traffic, shown: Seq<u8>) -> bool {
        &&& post.received == self.received
        &&& post.written == self.written
        &&& post.closed == self.closed
        &&& post.buffered == shown
        &&& self.buffered.len() <= shown.len()
        &&& shown.take(self.buffered.len() as int) == self.buffered
        &&& shown.len() == 0 <==> self.at_eof
        &&& shown.len() == 0 ==> post.at_eof
    }

    /// `post` follows `self` by consuming `amt` bytes of the lookahead.
    pub open spec fn consumed(self, post: Traffic, amt: nat) -> bool {
        &&& amt <= self.buffered.len()
        &&& post.received == self.received + self.buffered.take(amt as int)
        &&& post.buffered == self.buffered.skip(amt as int)
        &&& post.written == self.written
        &&& post.closed == self.closed
    }

    /// `post` follows `self` by a completed write that accepted the first
    /// `n` bytes of `data`.
    pub open spec fn wrote(self, post: Traffic, data: Seq<u8>, n: nat) -> bool {
        &&& n <= data.len()
        &&& post.written == self.written + data.take(n as int)
        &&& post.received == self.received
        &&& post.buffered == self.buffered
        &&& post.closed == self.closed
    }
}

/// The outcome of a fill, with the buffer that it showed as a sequence.
pub open spec fn shown(r: Poll<Result<&[u8], TubeError>>) -> Poll<Result<Seq<u8>, TubeError>> {
    match r {
        Poll::Ready(Ok(buf)) => Poll::Ready(Ok(buf@)),
        Poll::Ready(Err(err)) => Poll::Ready(Err(err)),
        Poll::Pending => Poll::Pending,
    }
}

/// The bytes that a receive handed over: none unless it completed.
pub open spec fn recv_bytes(r: Poll<Result<Vec<u8>, TubeError>>) -> Seq<u8> {
    match r {
        Poll::Ready(Ok(bytes)) => bytes@,
        _ => Seq::empty(),
    }
}

/// The outcome of a receive as that of the read behind it: the number of
/// the bytes in place of the bytes.
pub open spec fn recv_read(r: Poll<Result<Vec<u8>, TubeError>>) -> Poll<Result<usize, TubeError>> {
    match r {
        Poll::Ready(Ok(bytes)) => Poll::Ready(Ok(bytes@.len() as usize)),
        Poll::Ready(Err(err)) => Poll::Ready(Err(err)),
        Poll::Pending => Poll::Pending,
    }
}

/// The first of several buffers that holds a byte; nothing where none
/// does.
pub open spec fn first_filled(bufs: Seq<&[u8]>) -> Seq<u8>
    decreases bufs.len(),
{
    if bufs.len() == 0 {
        Seq::empty()
    } else if bufs.first()@.len() > 0 {
        bufs.first()@
    } else {
        first_filled(bufs.drop_first())
    }
}

/// The view that the contracts of the three capabilities are stated over.
///
/// Verified code knows a channel by this view alone. Both functions are
/// for proofs and are never run. A channel that is implemented outside
/// verified code, over a socket or a pipe, gives them bodies that nothing
/// calls: what the contracts say of its traffic is then a promise of its
/// author, which nobody has checked.
pub trait Stream {
    /// The traffic of this channel.
    spec fn view(&self) -> Traffic;

    /// The channel's own invariant.
    spec fn wf(&self) -> bool;
}

/// Attempt-read into a caller's buffer.
pub trait TubeRead: Stream {
    /// Whether one attempt to read at most `max_len` bytes can take this
    /// channel to `post`, hand over `got` and answer `r`. What a channel
    /// answers is its own to say: a decorator says it of itself in terms
    /// of the channel that it wraps, and a channel implemented elsewhere
    /// leaves it open.
    open spec fn reads(
        &self,
        post: &Self,
        max_len: usize,
        got: Seq<u8>,
        r: Poll<Result<usize, TubeError>>,
    ) -> bool {
        true
    }

    /// One attempt to append at most `max_len` bytes to `buf`. Returns how
    /// many were appended; none, on a request for some, means end-of-stream.
    fn poll_read(&mut self, buf: &mut Vec<u8>, max_len: usize) -> (r: Poll<Result<usize, TubeError>>)
        requires
            old(self).wf(),
        ensures
            final(self).wf(),
            match r {
                Poll::Ready(Ok(n)) => {
                    &&& final(buf)@.len() == old(buf)@.len() + n
                    &&& final(buf)@.take(old(buf)@.len() as int) == old(buf)@
                    &&& old(self)@.read(
                        final(self)@,
                        final(buf)@.skip(old(buf)@.len() as int),
                        max_len as nat,
                    )
                },
                _ => final(buf)@ == old(buf)@ && old(self)@.still(final(self)@),
            },
            old(self).reads(final(self), max_len, final(buf)@.skip(old(buf)@.len() as int), r),
    ;

    /// Receive up to `len` bytes: one attempt-read, never more, so the
    /// result may be shorter than asked for. On a request for at least one
    /// byte it is empty exactly at end-of-stream.
    ///
    /// The outcome is that of one read of at most `len` bytes: the bytes
    /// that the read handed over, its error, or its not being ready.
    fn recv(&mut self, len: usize) -> (r: Poll<Result<Vec<u8>, TubeError>>)
        requires
            old(self).wf(),
        ensures
            final(self).wf(),
            match r {
                Poll::Ready(Ok(bytes)) => {
                    &&& bytes@.len() <= len
                    &&& old(self)@.read(final(self)@, bytes@, len as nat)
                },
                _ => old(self)@.still(final(self)@),
            },
            old(self).reads(final(self), len, recv_bytes(r), recv_read(r)),
    {
        let mut buf: Vec<u8> = Vec::new();
        match self.poll_read(&mut buf, len) {
            Poll::Ready(Ok(n)) => {
                let ghost filled = buf@;
                buf.truncate(n);
                proof {
                    assert(buf@ =~= filled);
                    assert(filled =~= filled.skip(0));
                }
                Poll::Ready(Ok(buf))
            },
            Poll::Ready(Err(err)) => {
                proof {
                    assert(buf@.skip(0) =~= Seq::<u8>::empty());
                }
                Poll::Ready(Err(err))
            },
            Poll::Pending => {
                proof {
                    assert(buf@.skip(0) =~= Seq::<u8>::empty());
                }
                Poll::Pending
            },
        }
    }
}

/// Attempt-fill and consume of a lookahead buffer.
pub trait TubeBufRead: TubeRead {
    /// Whether one attempt to fill can take this channel to `post` and
    /// answer `r`.
    open spec fn fills(&self, post: &Self, r: Poll<Result<Seq<u8>, TubeError>>) -> bool {
        true
    }

    /// Whether consuming `amt` bytes can take this channel to `post`.
    open spec fn consumes(&self, post: &Self, amt: usize) -> bool {
        true
    }

    /// One attempt to show the lookahead buffer, fetching from the source
    /// if it is empty. An empty buffer means end-of-stream.
    fn poll_fill_buf(&mut self) -> (r: Poll<Result<&[u8], TubeError>>)
        requires
            old(self).wf(),
        ensures
            final(self).wf(),
            match r {
                Poll::Ready(Ok(shown)) => old(self)@.filled(final(self)@, shown@),
                _ => old(self)@.still(final(self)@),
            },
            old(self).fills(final(self), shown(r)),
    ;

    /// Removes the first `amt` bytes from the lookahead buffer: they count
    /// as received.
    fn consume(&mut self, amt: usize)
        requires
            old(self).wf(),
            amt <= old(self)@.buffered.len(),
        ensures
            final(self).wf(),
            old(self)@.consumed(final(self)@, amt as nat),
            old(self).consumes(final(self), amt),
    ;

    /// Receive until a newline or the end of the stream: the receive-until
    /// of the one-byte pattern `NEW_LINE`, to be polled against this
    /// stream.
    fn recv_line(&self) -> (r: RecvUntil)
        ensures
            r.wf(),
            r.pattern() == seq![NEW_LINE],
            r.taken() == Seq::<u8>::empty(),
            !r.finished(),
    {
        let delims = [NEW_LINE];
        assert(delims@ =~= seq![NEW_LINE]);
        RecvUntil::new(delims.as_slice())
    }

    /// Receive until `delims` is found or the end of the stream is
    /// reached: the operation, to be polled against this stream. It builds
    /// a lookup table, so that long patterns are matched in time linear in
    /// the bytes scanned.
    fn recv_until(&self, delims: &[u8]) -> (r: RecvUntil)
        requires
            delims@.len() > 0,
        ensures
            r.wf(),
            r.pattern() == delims@,
            r.taken() == Seq::<u8>::empty(),
            !r.finished(),
    {
        RecvUntil::new(delims)
    }
}

/// Attempt-write from a caller's buffer.
pub trait TubeWrite: Stream {
    /// Whether one attempt to write `data` can take this channel to `post`
    /// and answer `r`.
    open spec fn writes(&self, post: &Self, data: Seq<u8>, r: Poll<Result<usize, TubeError>>) -> bool {
        true
    }

    /// Whether one attempt to flush can take this channel to `post` and
    /// answer `r`.
    open spec fn flushes(&self, post: &Self, r: Poll<Result<(), TubeError>>) -> bool {
        true
    }

    /// Whether one attempt to shut down can take this channel to `post`
    /// and answer `r`.
    open spec fn shuts(&self, post: &Self, r: Poll<Result<(), TubeError>>) -> bool {
        true
    }

    /// Whether this channel has a way of its own to write from several
    /// buffers. One that has none writes the first buffer that is not
    /// empty.
    open spec fn vectored(&self) -> bool {
        true
    }

    /// Whether one attempt of this channel's own way to write from `bufs`
    /// can take it to `post` and answer `r`.
    open spec fn writes_vectored(
        &self,
        post: &Self,
        bufs: Seq<&[u8]>,
        r: Poll<Result<usize, TubeError>>,
    ) -> bool {
        true
    }

    /// One attempt to write `buf`. Returns how many bytes, from the front,
    /// were accepted.
    fn poll_write(&mut self, buf: &[u8]) -> (r: Poll<Result<usize, TubeError>>)
        requires
            old(self).wf(),
        ensures
            final(self).wf(),
            match r {
                Poll::Ready(Ok(n)) => old(self)@.wrote(final(self)@, buf@, n as nat),
                _ => old(self)@.still(final(self)@),
            },
            old(self).writes(final(self), buf@, r),
    ;

    /// One attempt to push accepted bytes through to their destination.
    /// Once it completes, every byte written so far has been.
    fn poll_flush(&mut self) -> (r: Poll<Result<(), TubeError>>)
        requires
            old(self).wf(),
        ensures
            final(self).wf(),
            old(self)@.still(final(self)@),
            r matches Poll::Ready(Ok(_)) ==> final(self)@.flushed == final(self)@.written.len(),
            old(self).flushes(final(self), r),
    ;

    /// One attempt to close the writing side. It is closed once an
    /// attempt has completed, and no sooner.
    fn poll_shutdown(&mut self) -> (r: Poll<Result<(), TubeError>>)
        requires
            old(self).wf(),
        ensures
            final(self).wf(),
            old(self)@.unmoved(final(self)@),
            final(self)@.closed <==> old(self)@.closed || r matches Poll::Ready(Ok(_)),
            old(self).shuts(final(self), r),
    ;

    /// One attempt to write from several buffers, as if they were one.
    /// Returns how many bytes, from the front of the first, were accepted.
    ///
    /// A channel with nothing better to offer writes the first buffer that
    /// is not empty.
    fn poll_write_vectored(&mut self, bufs: &[&[u8]]) -> (r: Poll<Result<usize, TubeError>>)
        requires
            old(self).wf(),
        ensures
            final(self).wf(),
            match r {
                Poll::Ready(Ok(n)) => old(self)@.wrote(final(self)@, joined(bufs@), n as nat),
                _ => old(self)@.still(final(self)@),
            },
            old(self).writes(final(self), first_filled(bufs@), r) || (old(self).vectored() && old(self).writes_vectored(final(self), bufs@, r)),
    {
        let mut i: usize = 0;
        assert(bufs@.skip(0) =~= bufs@);
        while i < bufs.len() && bufs[i].len() == 0
            invariant
                i <= bufs@.len(),
                joined(bufs@) == joined(bufs@.skip(i as int)),
                first_filled(bufs@) == first_filled(bufs@.skip(i as int)),
            decreases bufs@.len() - i,
        {
            proof {
                let rest = bufs@.skip(i as int);
                assert(rest.drop_first() =~= bufs@.skip(i + 1));
                assert(rest.first()@ + joined(rest.drop_first()) =~= joined(rest.drop_first()));
                assert(first_filled(rest) == first_filled(rest.drop_first()));
            }
            i += 1;
        }
        if i < bufs.len() {
            proof {
                let rest = bufs@.skip(i as int);
                assert(rest.first() == bufs@[i as int]);
                assert(first_filled(rest) == bufs@[i as int]@);
                assert forall|n: int| 0 <= n <= bufs@[i as int]@.len() implies bufs@[i as int]@.take(n)
                    == #[trigger] joined(bufs@).take(n) by {
                    assert(bufs@[i as int]@.take(n) =~= (rest.first()@ + joined(
                        rest.drop_first(),
                    )).take(n));
                }
            }
            self.poll_write(bufs[i])
        } else {
            let nothing: [u8; 0] = [];
            proof {
                assert(joined(bufs@.skip(i as int)) =~= Seq::<u8>::empty());
                assert(nothing@.take(0) =~= joined(bufs@).take(0));
                assert(first_filled(bufs@.skip(i as int)) =~= nothing@);
            }
            self.poll_write(nothing.as_slice())
        }
    }

    /// Whether writing from several buffers at once is any better than
    /// writing them one by one. Only a channel with a way of its own to
    /// do so says yes.
    fn is_write_vectored(&self) -> (r: bool)
        ensures
            r ==> self.vectored(),
    {
        false
    }

    /// Send `data` and flush: the operation, to be polled against this
    /// channel.
    fn send(&self, data: &[u8]) -> (r: SendAll)
        ensures
            r.wf(),
            r.payload() == data@,
            r.progress() == 0,
            !r.finished(),
    {
        SendAll::new(data)
    }

    /// Same as `send`, but a newline follows the data.
    fn send_line(&self, data: &[u8]) -> (r: SendAll)
        requires
            data@.len() < usize::MAX,
        ensures
            r.wf(),
            r.payload() == data@.push(NEW_LINE),
            r.progress() == 0,
            !r.finished(),
    {
        SendAll::line(data)
    }
}

/// Whether an attempt to write from `bufs` can take `pre` to `post` and
/// answer `r`: as a write of the first buffer that is not empty, or in the
/// channel's own way where it has one.
pub open spec fn writes_some<T: TubeWrite>(
    pre: &T,
    post: &T,
    bufs: Seq<&[u8]>,
    r: Poll<Result<usize, TubeError>>,
) -> bool {
    pre.writes(post, first_filled(bufs), r) || (pre.vectored() && pre.writes_vectored(post, bufs, r))
}

/// The bytes of several buffers, one after another.
pub open spec fn joined(bufs: Seq<&[u8]>) -> Seq<u8>
    decreases bufs.len(),
{
    if bufs.len() == 0 {
        Seq::empty()
    } else {
        bufs.first()@ + joined(bufs.drop_first())
    }
}

/// A channel that can be read with lookahead and written: what a tube
/// wraps, and what a tube is.
pub trait TubeLike: TubeBufRead + TubeWrite {
    /// Send a line after receiving `pattern`: the operation, to be polled
    /// against this channel.
    fn send_line_after(&self, pattern: &[u8], data: &[u8]) -> (r: SendLineAfter)
        requires
            pattern@.len() > 0,
            data@.len() < usize::MAX,
        ensures
            r.wf(),
            r.recv.pattern() == pattern@,
            r.recv.taken() == Seq::<u8>::empty(),
            !r.recv.finished(),
            r.send.payload() == data@.push(NEW_LINE),
            r.send.progress() == 0,
            !r.send.finished(),
    {
        SendLineAfter::new(pattern, data)
    }
}

impl<T: TubeBufRead + TubeWrite> TubeLike for T {

}

} // verus!

