//! The theory of the delimiter automaton: what its states mean, why a
//! table of transitions can be built row by row, and what scanning with it
//! yields.
use vstd::prelude::*;

verus! {

/// The first `k` bytes of `p` are the last `k` bytes of `s`.
pub open spec fn is_overlap(p: Seq<u8>, s: Seq<u8>, k: int) -> bool {
    &&& 0 <= k <= p.len()
    &&& k <= s.len()
    &&& forall|i: int| 0 <= i < k ==> #[trigger] p[i] == s[s.len() - k + i]
}

/// `s` ends with the whole of `p`.
pub open spec fn ends_with(s: Seq<u8>, p: Seq<u8>) -> bool {
    is_overlap(p, s, p.len() as int)
}

/// The greatest overlap of `p` with `s` that is at most `k`.
pub open spec fn overlap_from(p: Seq<u8>, s: Seq<u8>, k: int) -> int
    decreases k,
{
    if k <= 0 {
        0
    } else if is_overlap(p, s, k) {
        k
    } else {
        overlap_from(p, s, k - 1)
    }
}

/// How much of `p` has been matched once `s` has gone by: the length of
/// the longest prefix of `p` that `s` ends with.
pub open spec fn overlap(p: Seq<u8>, s: Seq<u8>) -> int {
    overlap_from(
        p,
        s,
        if p.len() <= s.len() {
            p.len() as int
        } else {
            s.len() as int
        },
    )
}

/// The automaton's transition: the state after byte `c`, coming from the
/// state in which the first `state` bytes of `p` are matched.
pub open spec fn step(p: Seq<u8>, state: int, c: u8) -> int {
    overlap(p, p.take(state).push(c))
}

/// The least `m` from `n` on at which the first `m` bytes of `s` end with
/// `p`; the length of `s` where there is none.
pub open spec fn find_from(p: Seq<u8>, s: Seq<u8>, n: int) -> int
    decreases s.len() - n,
{
    if n >= s.len() {
        s.len() as int
    } else if ends_with(s.take(n), p) {
        n
    } else {
        find_from(p, s, n + 1)
    }
}

/// What receive-until yields on a stream that holds `s` and then ends: the
/// shortest prefix of `s` that ends with `p`, or all of `s` where `p` does
/// not occur.
pub open spec fn until(p: Seq<u8>, s: Seq<u8>) -> Seq<u8> {
    s.take(find_from(p, s, 0))
}

/// `overlap_from` is an overlap, and no overlap up to `k0` is longer.
proof fn lemma_overlap_from(p: Seq<u8>, s: Seq<u8>, k0: int)
    requires
        0 <= k0 <= p.len(),
        k0 <= s.len(),
    ensures
        0 <= overlap_from(p, s, k0) <= k0,
        is_overlap(p, s, overlap_from(p, s, k0)),
        forall|k: int| overlap_from(p, s, k0) < k <= k0 ==> !is_overlap(p, s, k),
    decreases k0,
{
    if k0 > 0 && !is_overlap(p, s, k0) {
        lemma_overlap_from(p, s, k0 - 1);
    }
}

/// `overlap` is an overlap, and no overlap is longer.
pub proof fn lemma_overlap(p: Seq<u8>, s: Seq<u8>)
    ensures
        is_overlap(p, s, overlap(p, s)),
        forall|k: int| is_overlap(p, s, k) ==> k <= overlap(p, s),
{
    let top = if p.len() <= s.len() {
        p.len() as int
    } else {
        s.len() as int
    };
    lemma_overlap_from(p, s, top);
}

/// Two streams with the same overlaps have the same longest one.
proof fn lemma_overlap_same(p: Seq<u8>, s: Seq<u8>, t: Seq<u8>)
    requires
        forall|k: int| is_overlap(p, s, k) <==> is_overlap(p, t, k),
    ensures
        overlap(p, s) == overlap(p, t),
{
    lemma_overlap(p, s);
    lemma_overlap(p, t);
}

/// An overlap with `s` and then `c` is an overlap with `s`, one shorter,
/// that `c` extends.
proof fn lemma_overlap_push(p: Seq<u8>, s: Seq<u8>, c: u8, k: int)
    requires
        1 <= k,
    ensures
        is_overlap(p, s.push(c), k) <==> (k <= p.len() && is_overlap(p, s, k - 1) && p[k - 1] == c),
{
    let sc = s.push(c);
    if is_overlap(p, sc, k) {
        assert(p[k - 1] == sc[sc.len() - k + (k - 1)]);
        assert forall|i: int| 0 <= i < k - 1 implies #[trigger] p[i] == s[s.len() - (k - 1) + i] by {
            assert(p[i] == sc[sc.len() - k + i]);
        }
    }
    if k <= p.len() && is_overlap(p, s, k - 1) && p[k - 1] == c {
        assert forall|i: int| 0 <= i < k implies #[trigger] p[i] == sc[sc.len() - k + i] by {
            if i < k - 1 {
                assert(p[i] == s[s.len() - (k - 1) + i]);
            }
        }
    }
}

/// Where `s` ends with the first `x` bytes of `p`, the overlaps of `p` with
/// `s` up to `x` are those of `p` with its own first `x` bytes.
proof fn lemma_overlap_within(p: Seq<u8>, s: Seq<u8>, x: int, k: int)
    requires
        is_overlap(p, s, x),
        k <= x,
    ensures
        is_overlap(p, s, k) <==> is_overlap(p, p.take(x), k),
{
    let t = p.take(x);
    if is_overlap(p, s, k) {
        assert forall|i: int| 0 <= i < k implies #[trigger] p[i] == t[t.len() - k + i] by {
            assert(p[i] == s[s.len() - k + i]);
            assert(p[x - k + i] == s[s.len() - x + (x - k + i)]);
        }
    }
    if is_overlap(p, t, k) {
        assert forall|i: int| 0 <= i < k implies #[trigger] p[i] == s[s.len() - k + i] by {
            assert(p[i] == t[t.len() - k + i]);
            assert(p[x - k + i] == s[s.len() - x + (x - k + i)]);
        }
    }
}

/// The automaton forgets nothing that matters: the state after one more
/// byte follows from the state before it and the byte alone.
pub proof fn lemma_step(p: Seq<u8>, s: Seq<u8>, c: u8)
    ensures
        overlap(p, s.push(c)) == step(p, overlap(p, s), c),
{
    let x = overlap(p, s);
    let t = p.take(x);
    lemma_overlap(p, s);
    assert forall|k: int| is_overlap(p, s.push(c), k) <==> is_overlap(p, t.push(c), k) by {
        if k >= 1 {
            lemma_overlap_push(p, s, c, k);
            lemma_overlap_push(p, t, c, k);
            if k - 1 <= x {
                lemma_overlap_within(p, s, x, k - 1);
            }
        }
    }
    lemma_overlap_same(p, s.push(c), t.push(c));
}

/// The state to fall back to when the byte after the first `j` of `p` does
/// not match: how much of `p` its own bytes from the second to the `j`-th
/// have matched.
pub open spec fn restart(p: Seq<u8>, j: int) -> int {
    if j <= 0 {
        0
    } else {
        overlap(p, p.subrange(1, j))
    }
}

/// `table` is the automaton of `p`: one row for each state short of a full
/// match, one column for each byte, holding the next state.
pub open spec fn is_table(table: Seq<[usize; 256]>, p: Seq<u8>) -> bool {
    &&& table.len() == p.len()
    &&& forall|j: int, c: u8|
        0 <= j < table.len() ==> (#[trigger] table[j][c as int]) as int == step(p, j, c)
}

/// The restart state of a row lies before the row.
pub proof fn lemma_restart_bound(p: Seq<u8>, j: int)
    requires
        1 <= j <= p.len(),
    ensures
        0 <= restart(p, j) < j,
{
    lemma_overlap(p, p.subrange(1, j));
}

/// The byte that the pattern expects moves the automaton one state on.
pub proof fn lemma_step_match(p: Seq<u8>, j: int)
    requires
        0 <= j < p.len(),
    ensures
        step(p, j, p[j]) == j + 1,
{
    let s = p.take(j).push(p[j]);
    lemma_overlap(p, s);
    assert(is_overlap(p, s, j + 1));
}

/// Any other byte moves it where the same byte moves the restart state.
pub proof fn lemma_step_mismatch(p: Seq<u8>, j: int, c: u8)
    requires
        0 <= j < p.len(),
        c != p[j],
    ensures
        j == 0 ==> step(p, j, c) == 0,
        j > 0 ==> step(p, j, c) == step(p, restart(p, j), c),
{
    let s = p.take(j).push(c);
    lemma_overlap(p, s);
    if j == 0 {
        if overlap(p, s) >= 1 {
            assert(p[0] == s[s.len() - overlap(p, s) + 0]);
        }
    } else {
        let t = p.subrange(1, j).push(c);
        assert forall|k: int| is_overlap(p, s, k) <==> is_overlap(p, t, k) by {
            if is_overlap(p, s, k) {
                if k == j + 1 {
                    assert(p[j] == s[s.len() - k + j]);
                }
                assert forall|i: int| 0 <= i < k implies #[trigger] p[i] == t[t.len() - k + i] by {
                    assert(p[i] == s[s.len() - k + i]);
                }
            }
            if is_overlap(p, t, k) {
                assert forall|i: int| 0 <= i < k implies #[trigger] p[i] == s[s.len() - k + i] by {
                    assert(p[i] == t[t.len() - k + i]);
                }
            }
        }
        lemma_overlap_same(p, s, t);
        lemma_step(p, p.subrange(1, j), c);
    }
}

/// The restart state of the next row follows from this row's.
pub proof fn lemma_restart_next(p: Seq<u8>, j: int)
    requires
        0 <= j < p.len(),
    ensures
        j == 0 ==> restart(p, j + 1) == 0,
        j > 0 ==> restart(p, j + 1) == step(p, restart(p, j), p[j]),
{
    if j == 0 {
        lemma_overlap(p, p.subrange(1, 1));
    } else {
        assert(p.subrange(1, j + 1) =~= p.subrange(1, j).push(p[j]));
        lemma_step(p, p.subrange(1, j), p[j]);
    }
}

/// `find_from` is the first match from `n` on.
pub proof fn lemma_find_from(p: Seq<u8>, s: Seq<u8>, n: int)
    requires
        0 <= n <= s.len(),
    ensures
        n <= find_from(p, s, n) <= s.len(),
        forall|k: int| n <= k < find_from(p, s, n) ==> !ends_with(#[trigger] s.take(k), p),
        find_from(p, s, n) < s.len() ==> ends_with(s.take(find_from(p, s, n)), p),
    decreases s.len() - n,
{
    if n < s.len() && !ends_with(s.take(n), p) {
        lemma_find_from(p, s, n + 1);
    }
}

/// A place that no match precedes, and that is a match or the end, is
/// where `find_from` stops.
pub proof fn lemma_find_is(p: Seq<u8>, s: Seq<u8>, n: int, r: int)
    requires
        0 <= n <= r <= s.len(),
        forall|k: int| n <= k < r ==> !ends_with(#[trigger] s.take(k), p),
        r < s.len() ==> ends_with(s.take(r), p),
    ensures
        find_from(p, s, n) == r,
    decreases r - n,
{
    if n < r {
        assert(!ends_with(s.take(n), p));
        lemma_find_is(p, s, n + 1, r);
    }
}

/// Receive-until takes a prefix: what it yields, followed by what it
/// leaves on the stream, is the stream. The next operation starts where
/// this one stopped, with no byte skipped and none seen twice.
pub proof fn lemma_until_splits(p: Seq<u8>, s: Seq<u8>)
    ensures
        until(p, s).len() <= s.len(),
        until(p, s) + s.skip(until(p, s).len() as int) == s,
{
    lemma_find_from(p, s, 0);
    assert(until(p, s) + s.skip(until(p, s).len() as int) =~= s);
}

/// Where the pattern occurs, receive-until yields the shortest prefix
/// that ends with it: the prefix ends with the pattern, and no prefix that
/// does is shorter.
pub proof fn lemma_until_shortest(p: Seq<u8>, s: Seq<u8>, n: int)
    requires
        0 <= n <= s.len(),
        ends_with(s.take(n), p),
    ensures
        until(p, s).len() <= n,
        ends_with(until(p, s), p),
{
    lemma_find_from(p, s, 0);
    if find_from(p, s, 0) == s.len() {
        assert(s.take(n) =~= s) by {
            if n < s.len() {
                assert(!ends_with(s.take(n), p));
            }
        }
        assert(s.take(s.len() as int) =~= s);
    }
}

/// Where the pattern does not occur, receive-until yields the whole
/// stream.
pub proof fn lemma_until_absent(p: Seq<u8>, s: Seq<u8>)
    requires
        forall|n: int| 0 <= n <= s.len() ==> !ends_with(#[trigger] s.take(n), p),
    ensures
        until(p, s) == s,
{
    lemma_find_is(p, s, 0, s.len() as int);
    assert(s.take(s.len() as int) =~= s);
}

/// A prefix that ends with the pattern, and of which no shorter prefix
/// does, is what receive-until yields, whatever follows it on the stream.
pub proof fn lemma_until_unique(p: Seq<u8>, s: Seq<u8>, t: Seq<u8>)
    requires
        t.len() <= s.len(),
        s.take(t.len() as int) == t,
        ends_with(t, p),
        until(p, t) == t,
        p.len() > 0,
    ensures
        until(p, s) == t,
{
    lemma_find_from(p, t, 0);
    assert(find_from(p, t, 0) == t.len()) by {
        assert(until(p, t).len() == find_from(p, t, 0));
    }
    assert forall|k: int| 0 <= k < t.len() implies !ends_with(#[trigger] s.take(k), p) by {
        assert(s.take(k) =~= t.take(k));
    }
    lemma_find_is(p, s, 0, t.len() as int);
}

/// What repeated receive-until yields on a stream that holds `s` and then
/// ends: each segment is taken from where the one before it stopped.
pub open spec fn segments(p: Seq<u8>, s: Seq<u8>) -> Seq<Seq<u8>>
    decreases s.len(),
{
    if s.len() == 0 {
        Seq::empty()
    } else if until(p, s).len() == 0 {
        seq![s]
    } else {
        proof {
            lemma_find_from(p, s, 0);
        }
        seq![until(p, s)] + segments(p, s.skip(until(p, s).len() as int))
    }
}

/// The round trip: the segments, joined in order, are the stream. Every
/// segment but the last ends with the pattern, and none holds the pattern
/// before its end.
pub proof fn lemma_segments(p: Seq<u8>, s: Seq<u8>)
    requires
        p.len() > 0,
    ensures
        segments(p, s).flatten() == s,
        forall|i: int|
            0 <= i < segments(p, s).len() ==> until(p, #[trigger] segments(p, s)[i]) == segments(
                p,
                s,
            )[i],
        forall|i: int|
            0 <= i < segments(p, s).len() - 1 ==> ends_with(#[trigger] segments(p, s)[i], p),
    decreases s.len(),
{
    if s.len() == 0 {
        assert(segments(p, s).flatten() =~= s);
    } else {
        let first = until(p, s);
        let rest = s.skip(first.len() as int);
        lemma_until_splits(p, s);
        lemma_find_from(p, s, 0);
        assert(first.len() > 0) by {
            if find_from(p, s, 0) == 0 {
                assert(ends_with(s.take(0), p));
            }
        }
        lemma_segments(p, rest);
        let all = segments(p, s);
        assert(all.first() == first);
        assert(all.drop_first() =~= segments(p, rest));
        assert(all.flatten() =~= first + segments(p, rest).flatten());
        assert(until(p, first) == first) by {
            assert forall|k: int| 0 <= k < first.len() implies !ends_with(
                #[trigger] first.take(k),
                p,
            ) by {
                assert(first.take(k) =~= s.take(k));
            }
            lemma_find_is(p, first, 0, first.len() as int);
            assert(first.take(first.len() as int) =~= first);
        }
        assert forall|i: int| 0 <= i < all.len() implies until(p, #[trigger] all[i]) == all[i] by {
            if i > 0 {
                assert(all[i] == segments(p, rest)[i - 1]);
            }
        }
        assert forall|i: int| 0 <= i < all.len() - 1 implies ends_with(#[trigger] all[i], p) by {
            if i > 0 {
                assert(all[i] == segments(p, rest)[i - 1]);
            } else {
                assert(rest.len() > 0);
                assert(first.len() < s.len());
            }
        }
    }
}

} // verus!
