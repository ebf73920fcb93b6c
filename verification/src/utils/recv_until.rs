//! Receive-until: the operation that scans a lookahead stream with the
//! automaton of its pattern.
use vstd::prelude::*;
use vstd::slice::slice_subrange;
use crate::traits::{Poll, TubeBufRead, TubeError};
use crate::utils::automaton::{
    ends_with, is_table, lemma_find_is, lemma_overlap, lemma_restart_bound, lemma_restart_next,
    lemma_step, lemma_step_match, lemma_step_mismatch, overlap, restart, step, until,
};

verus! {

/// Some attempt to fill was answered with `r` and left the channel as
/// `post` has it.
pub open spec fn fill_said<T: TubeBufRead>(post: &T, r: Poll<Result<Seq<u8>, TubeError>>) -> bool {
    exists|last: T| #[trigger] last.fills(post, r)
}

/// Some attempt to fill has shown bytes, or the end of the stream, and
/// what followed has left the channel as `post` has it: where bytes were
/// shown, some of them were consumed; where none were, nothing more was
/// done.
pub open spec fn fill_served<T: TubeBufRead>(post: &T) -> bool {
    exists|last: T, filled: T|
        {
            &&& #[trigger] last.fills(&filled, Poll::Ready(Ok(filled@.buffered)))
            &&& if filled@.buffered.len() == 0 {
                filled == post
            } else {
                &&& filled@.received.len() < post@.received.len()
                &&& filled.consumes(
                    post,
                    (post@.received.len() - filled@.received.len()) as usize,
                )
            }
        }
}

/// A receive-until in flight: the automaton of its pattern, how far the
/// pattern is matched, and the bytes taken from the stream so far.
///
/// The match state is all that has to survive between two attempts; it
/// belongs to this one operation and is never reset.
pub struct RecvUntil {
    cur_index: usize,
    lookup_table: Vec<[usize; 256]>,
    buf: Vec<u8>,
    done: bool,
    pattern: Ghost<Seq<u8>>,
}

impl RecvUntil {
    /// The pattern that ends the operation.
    pub closed spec fn pattern(&self) -> Seq<u8> {
        self.pattern@
    }

    /// The bytes taken from the stream so far, in order.
    pub closed spec fn taken(&self) -> Seq<u8> {
        self.buf@
    }

    /// Whether the operation has completed.
    pub closed spec fn finished(&self) -> bool {
        self.done
    }

    /// The operation's invariant: the table is the automaton of the
    /// pattern, the state is what the bytes taken have matched, and no
    /// match lies before their end.
    pub closed spec fn wf(&self) -> bool {
        &&& self.pattern@.len() > 0
        &&& is_table(self.lookup_table@, self.pattern@)
        &&& self.cur_index == overlap(self.pattern@, self.buf@)
        &&& forall|k: int| 0 <= k < self.buf@.len() ==> !ends_with(#[trigger] self.buf@.take(k), self.pattern@)
        &&& !self.done ==> !ends_with(self.buf@, self.pattern@)
    }

    /// What the invariant says of the bytes taken: they hold no match but,
    /// at most, at their very end, which an unfinished operation has not
    /// reached.
    pub proof fn lemma_taken(&self)
        requires
            self.wf(),
        ensures
            self.pattern().len() > 0,
            until(self.pattern(), self.taken()) == self.taken(),
            !self.finished() ==> !ends_with(self.taken(), self.pattern()),
    {
        lemma_find_is(self.pattern@, self.buf@, 0, self.buf@.len() as int);
        assert(self.buf@.take(self.buf@.len() as int) =~= self.buf@);
    }

    /// A receive-until for `delims` that has taken nothing yet.
    pub fn new(delims: &[u8]) -> (r: Self)
        requires
            delims@.len() > 0,
        ensures
            r.wf(),
            r.pattern() == delims@,
            r.taken() == Seq::<u8>::empty(),
            !r.finished(),
    {
        let r = RecvUntil {
            cur_index: 0,
            lookup_table: Self::compute_lookup_table(delims),
            buf: Vec::new(),
            done: false,
            pattern: Ghost(delims@),
        };
        proof {
            lemma_overlap(delims@, r.buf@);
        }
        r
    }

    /// Whether the operation has completed.
    pub fn is_done(&self) -> (r: bool)
        ensures
            r == self.finished(),
    {
        self.done
    }

    /// The bytes taken from the stream so far.
    pub fn buf(&self) -> (r: &Vec<u8>)
        ensures
            r@ == self.taken(),
    {
        &self.buf
    }

    /// Ends the operation and hands over the bytes it took.
    pub fn into_buf(self) -> (r: Vec<u8>)
        ensures
            r@ == self.taken(),
    {
        self.buf
    }

    /// Scans one filled lookahead buffer. Takes the bytes up to and with
    /// the one that completes the pattern, or all of them where none does,
    /// and returns how many it took: that many are to be consumed. An
    /// empty buffer is the end of the stream and completes the operation
    /// without a match.
    pub fn scan(&mut self, new_buf: &[u8]) -> (count: usize)
        requires
            old(self).wf(),
            !old(self).finished(),
        ensures
            final(self).wf(),
            final(self).pattern() == old(self).pattern(),
            final(self).taken() == until(old(self).pattern(), old(self).taken() + new_buf@),
            final(self).taken() == old(self).taken() + new_buf@.take(count as int),
            count <= new_buf@.len(),
            count == 0 <==> new_buf@.len() == 0,
            final(self).finished() <==> ends_with(final(self).taken(), old(self).pattern())
                || new_buf@.len() == 0,
    {
        let ghost p = self.pattern@;
        let ghost before = self.buf@;
        let ghost s = self.buf@ + new_buf@;
        let mut count: usize = 0;
        proof {
            assert(s.take(before.len() as int) =~= before);
            assert forall|k: int| 0 <= k <= before.len() implies !ends_with(#[trigger] s.take(k), p) by {
                assert(s.take(k) =~= before.take(k));
            }
        }
        while count < new_buf.len()
            invariant
                count <= new_buf@.len(),
                p.len() > 0,
                p == self.pattern@,
                p == old(self).pattern@,
                before == self.buf@,
                before == old(self).buf@,
                s == before + new_buf@,
                self.done == old(self).done,
                is_table(self.lookup_table@, p),
                self.cur_index == overlap(p, s.take(before.len() + count)),
                forall|k: int| 0 <= k <= before.len() + count ==> !ends_with(#[trigger] s.take(k), p),
            decreases new_buf@.len() - count,
        {
            let new_byte = new_buf[count];
            proof {
                let seen = s.take(before.len() + count);
                lemma_overlap(p, seen);
                assert(seen =~= s.take(seen.len() as int));
                assert(self.cur_index < p.len());
                lemma_step(p, seen, new_byte);
                assert(seen.push(new_byte) =~= s.take(before.len() + count + 1));
                assert(self.lookup_table@[self.cur_index as int][new_byte as int] as int == step(
                    p,
                    self.cur_index as int,
                    new_byte,
                ));
                lemma_overlap(p, s.take(before.len() + count + 1));
            }
            self.cur_index = self.lookup_table[self.cur_index][new_byte as usize];
            if self.cur_index == self.lookup_table.len() {
                self.buf.extend_from_slice(slice_subrange(new_buf, 0, count + 1));
                self.done = true;
                proof {
                    let r = before.len() + count + 1;
                    assert(self.buf@ =~= s.take(r));
                    assert(self.buf@ =~= before + new_buf@.take(count + 1));
                    lemma_find_is(p, s, 0, r);
                    assert forall|k: int| 0 <= k < self.buf@.len() implies !ends_with(
                        #[trigger] self.buf@.take(k),
                        p,
                    ) by {
                        assert(self.buf@.take(k) =~= s.take(k));
                    }
                }
                return count + 1;
            }
            count += 1;
        }
        proof {
            assert(s.take(s.len() as int) =~= s);
            lemma_find_is(p, s, 0, s.len() as int);
            assert(new_buf@.take(new_buf@.len() as int) =~= new_buf@);
        }
        if new_buf.len() == 0 {
            self.done = true;
            proof {
                assert(s =~= before);
            }
            return 0;
        }
        self.buf.extend_from_slice(new_buf);
        proof {
            assert(self.buf@ =~= s);
            assert forall|k: int| 0 <= k < self.buf@.len() implies !ends_with(
                #[trigger] self.buf@.take(k),
                p,
            ) by {}
        }
        count
    }
}

impl RecvUntil {
    /// Runs the operation against `inner` until it completes or the stream
    /// cannot proceed: fills, scans what was filled and consumes what the
    /// scan took, again and again. `expired` says that the deadline of the
    /// operation has passed; it is looked at once, before the first fill.
    ///
    /// Completes when the pattern has been matched, when the stream has
    /// ended, or when the deadline has passed: the bytes taken so far are
    /// then the result, a partial match included. Whatever the outcome,
    /// the bytes taken are exactly those that the stream has handed over,
    /// and the stream holds on to what follows them.
    ///
    /// It is pending when a fill was, and fails when a fill failed, with
    /// that error: the fill is not tried again, and what was taken before
    /// it stays taken. It completes on a fill that showed the end of the
    /// stream or the last byte of the pattern.
    pub fn poll<T: TubeBufRead>(&mut self, inner: &mut T, expired: bool) -> (r: Poll<
        Result<(), TubeError>,
    >)
        requires
            old(self).wf(),
            old(inner).wf(),
        ensures
            final(self).wf(),
            final(inner).wf(),
            final(self).pattern() == old(self).pattern(),
            old(self).taken().len() <= final(self).taken().len(),
            final(self).taken().take(old(self).taken().len() as int) == old(self).taken(),
            final(inner)@.received == old(inner)@.received + final(self).taken().skip(
                old(self).taken().len() as int,
            ),
            final(inner)@.written == old(inner)@.written,
            final(inner)@.closed == old(inner)@.closed,
            old(self).finished() || expired ==> r matches Poll::Ready(Ok(_)),
            old(self).finished() || expired ==> old(inner)@.unmoved(final(inner)@),
            match r {
                Poll::Ready(Ok(_)) => {
                    &&& final(self).finished()
                    &&& old(self).finished() || expired || final(inner)@.at_eof || ends_with(
                        final(self).taken(),
                        old(self).pattern(),
                    )
                },
                Poll::Ready(Err(_)) => !final(self).finished(),
                Poll::Pending => !final(self).finished(),
            },
            match r {
                Poll::Ready(Ok(_)) => old(self).finished() || expired || fill_served(final(inner)),
                Poll::Ready(Err(err)) => fill_said(
                    final(inner),
                    Poll::Ready(Err::<Seq<u8>, TubeError>(err)),
                ),
                Poll::Pending => fill_said(final(inner), Poll::<Result<Seq<u8>, TubeError>>::Pending),
            },
    {
        proof {
            assert(self.buf@.take(self.buf@.len() as int) =~= self.buf@);
            assert(self.buf@.skip(self.buf@.len() as int) =~= Seq::<u8>::empty());
            assert(inner@.received + Seq::<u8>::empty() =~= inner@.received);
        }
        if self.done {
            return Poll::Ready(Ok(()));
        }
        if expired {
            self.done = true;
            return Poll::Ready(Ok(()));
        }
        loop
            invariant
                self.wf(),
                inner.wf(),
                !self.done,
                !old(self).done,
                !expired,
                self.pattern@ == old(self).pattern@,
                old(self).buf@.len() <= self.buf@.len(),
                self.buf@.take(old(self).buf@.len() as int) == old(self).buf@,
                inner@.received == old(inner)@.received + self.buf@.skip(old(self).buf@.len() as int),
                inner@.written == old(inner)@.written,
                inner@.closed == old(inner)@.closed,
            decreases usize::MAX - self.buf@.len(),
        {
            let ghost taken = self.buf@;
            let ghost before = inner@;
            let ghost last = *inner;
            match inner.poll_fill_buf() {
                Poll::Pending => {
                    assert(last.fills(inner, Poll::<Result<Seq<u8>, TubeError>>::Pending));
                    return Poll::Pending;
                },
                Poll::Ready(Err(err)) => {
                    assert(last.fills(inner, Poll::Ready(Err::<Seq<u8>, TubeError>(err))));
                    return Poll::Ready(Err(err));
                },
                Poll::Ready(Ok(new_buf)) => {
                    let ghost shown = new_buf@;
                    let count = self.scan(new_buf);
                    let ghost filled = *inner;
                    assert(last.fills(&filled, Poll::Ready(Ok::<Seq<u8>, TubeError>(filled@.buffered))));
                    if count > 0 {
                        inner.consume(count);
                    }
                    proof {
                        let base = old(self).buf@.len() as int;
                        assert(self.buf@.skip(base) =~= taken.skip(base) + shown.take(count as int));
                        assert(self.buf@.take(base) =~= taken.take(base));
                        assert(shown.take(0) =~= Seq::<u8>::empty());
                        assert(before.received + Seq::<u8>::empty() =~= before.received);
                    }
                    if self.done {
                        return Poll::Ready(Ok(()));
                    }
                    // this round has moved at least one byte into the result, and
                    // a vector is never longer than `usize::MAX`: the loop ends
                    let grown = self.buf.len();
                    assert(grown > taken.len());
                },
            }
        }
    }
}

impl RecvUntil {
    /// Builds the automaton of `delims`: for each state and each byte, the
    /// state that follows.
    pub fn compute_lookup_table(delims: &[u8]) -> (lookup_table: Vec<[usize; 256]>)
        ensures
            is_table(lookup_table@, delims@),
    {
        let mut lookup_table: Vec<[usize; 256]> = Vec::with_capacity(delims.len());
        let mut lps: usize = 0;
        let mut row_idx: usize = 0;
        while row_idx < delims.len()
            invariant
                row_idx <= delims@.len() <= usize::MAX,
                lookup_table@.len() == row_idx,
                lps == restart(delims@, row_idx as int),
                row_idx > 0 ==> lps < row_idx,
                forall|j: int, c: u8|
                    0 <= j < row_idx ==> (#[trigger] lookup_table@[j][c as int]) as int == step(
                        delims@,
                        j,
                        c,
                    ),
            decreases delims@.len() - row_idx,
        {
            let delim_last = delims[row_idx];
            let mut row = [0usize; 256];
            proof {
                vstd::array::axiom_spec_array_fill_for_copy_type::<usize, 256>(0usize);
            }
            let mut new_byte: usize = 0;
            while new_byte < 256
                invariant
                    new_byte <= 256,
                    row_idx < delims@.len() <= usize::MAX,
                    forall|i: int| new_byte <= i < 256 ==> #[trigger] row[i] == 0,
                    delim_last == delims@[row_idx as int],
                    lookup_table@.len() == row_idx,
                    lps == restart(delims@, row_idx as int),
                    row_idx > 0 ==> lps < row_idx,
                    forall|j: int, c: u8|
                        0 <= j < row_idx ==> (#[trigger] lookup_table@[j][c as int]) as int == step(
                            delims@,
                            j,
                            c,
                        ),
                    forall|c: u8| c < new_byte ==> (#[trigger] row[c as int]) as int == step(
                        delims@,
                        row_idx as int,
                        c,
                    ),
                decreases 256 - new_byte,
            {
                let ghost c = new_byte as u8;
                if new_byte == delim_last as usize {
                    proof {
                        lemma_step_match(delims@, row_idx as int);
                    }
                    row[new_byte] = row_idx + 1;
                } else {
                    proof {
                        lemma_step_mismatch(delims@, row_idx as int, c);
                    }
                    if row_idx != 0 {
                        assert(lookup_table@[lps as int][c as int] as int == step(delims@, lps as int, c));
                        row[new_byte] = lookup_table[lps][new_byte];
                    }
                }
                new_byte += 1;
            }
            proof {
                lemma_restart_next(delims@, row_idx as int);
            }
            if row_idx != 0 {
                assert(lookup_table@[lps as int][delim_last as int] as int == step(
                    delims@,
                    lps as int,
                    delim_last,
                ));
                lps = lookup_table[lps][delim_last as usize];
                proof {
                    lemma_restart_bound(delims@, row_idx + 1);
                }
            }
            lookup_table.push(row);
            row_idx += 1;
        }
        lookup_table
    }
}

} // verus!
