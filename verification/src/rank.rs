//! Stable ranking of price levels.

use vstd::prelude::*;
use crate::exchanges::Quote;

verus! {

/// Every level ranks no worse than the levels after it.
pub open spec fn ranked<T: Quote>(s: Seq<T>) -> bool {
    forall|i: int, j: int| 0 <= i < j < s.len() ==> s[i].rank_key() <= s[j].rank_key()
}

/// Where `x` enters `s`: behind the longest prefix of levels that `x` does
/// not outrank.
pub open spec fn slot<T: Quote>(s: Seq<T>, x: T) -> nat
    decreases s.len(),
{
    if s.len() == 0 || x.rank_key() < s[0].rank_key() {
        0
    } else {
        1 + slot(s.drop_first(), x)
    }
}

/// The levels of `s` from best to worst; levels of equal rank keep the order
/// in which they stand in `s`.
pub open spec fn stable_rank<T: Quote>(s: Seq<T>) -> Seq<T>
    decreases s.len(),
{
    if s.len() == 0 {
        s
    } else {
        let t = stable_rank(s.drop_last());
        t.insert(slot(t, s.last()) as int, s.last())
    }
}

/// The first `n` levels of `s`, or all of `s` where it holds fewer.
pub open spec fn top<T>(s: Seq<T>, n: nat) -> Seq<T> {
    if s.len() <= n {
        s
    } else {
        s.subrange(0, n as int)
    }
}

/// `slot` is the one position that parts the levels `x` does not outrank
/// from the first level that it does.
pub proof fn lemma_slot<T: Quote>(s: Seq<T>, x: T, p: int)
    requires
        0 <= p <= s.len(),
        forall|k: int| 0 <= k < p ==> s[k].rank_key() <= x.rank_key(),
        p < s.len() ==> x.rank_key() < s[p].rank_key(),
    ensures
        slot(s, x) == p,
    decreases s.len(),
{
    if s.len() == 0 || x.rank_key() < s[0].rank_key() {
    } else {
        let r = s.drop_first();
        assert forall|k: int| 0 <= k < p - 1 implies r[k].rank_key() <= x.rank_key() by {
            assert(r[k] == s[k + 1]);
        }
        lemma_slot(r, x, p - 1);
    }
}

/// What `slot` returns: a position in `s` with no level before it that `x`
/// outranks, and at it a level that `x` outranks, if there is one at all.
pub proof fn lemma_slot_parts<T: Quote>(s: Seq<T>, x: T)
    ensures
        slot(s, x) <= s.len(),
        forall|k: int| 0 <= k < slot(s, x) ==> s[k].rank_key() <= x.rank_key(),
        slot(s, x) < s.len() ==> x.rank_key() < s[slot(s, x) as int].rank_key(),
    decreases s.len(),
{
    if s.len() == 0 || x.rank_key() < s[0].rank_key() {
    } else {
        let r = s.drop_first();
        lemma_slot_parts(r, x);
        assert forall|k: int| 0 <= k < slot(s, x) implies s[k].rank_key() <= x.rank_key() by {
            if k > 0 {
                assert(s[k] == r[k - 1]);
            }
        }
        if slot(s, x) < s.len() {
            assert(s[slot(s, x) as int] == r[slot(r, x) as int]);
        }
    }
}

/// Ranking keeps every level: as many come out as went in.
pub proof fn lemma_rank_len<T: Quote>(s: Seq<T>)
    ensures
        stable_rank(s).len() == s.len(),
    decreases s.len(),
{
    if s.len() > 0 {
        let t = stable_rank(s.drop_last());
        lemma_rank_len(s.drop_last());
        lemma_slot_parts(t, s.last());
    }
}

/// The outcome of ranking is ranked: best first.
pub proof fn lemma_rank_ranked<T: Quote>(s: Seq<T>)
    ensures
        ranked(stable_rank(s)),
    decreases s.len(),
{
    if s.len() > 0 {
        let x = s.last();
        let t = stable_rank(s.drop_last());
        let p = slot(t, x) as int;
        let out = stable_rank(s);
        lemma_rank_ranked(s.drop_last());
        lemma_slot_parts(t, x);
        assert forall|i: int, j: int| 0 <= i < j < out.len() implies out[i].rank_key()
            <= out[j].rank_key() by {
            if j < p {
                assert(out[i] == t[i] && out[j] == t[j]);
            } else if j == p {
                assert(out[i] == t[i]);
            } else if i < p {
                assert(out[i] == t[i] && out[j] == t[j - 1]);
                assert(x.rank_key() < t[p].rank_key());
                assert(p < j - 1 ==> t[p].rank_key() <= t[j - 1].rank_key());
            } else if i == p {
                assert(out[j] == t[j - 1]);
                assert(p < j - 1 ==> t[p].rank_key() <= t[j - 1].rank_key());
            } else {
                assert(out[i] == t[i - 1] && out[j] == t[j - 1]);
            }
        }
    }
}

/// Ranking neither loses nor invents a level: the outcome holds the same
/// levels, each as often as the input does.
pub proof fn lemma_rank_permutes<T: Quote>(s: Seq<T>)
    ensures
        stable_rank(s).to_multiset() == s.to_multiset(),
    decreases s.len(),
{
    if s.len() > 0 {
        let x = s.last();
        let t = stable_rank(s.drop_last());
        lemma_rank_permutes(s.drop_last());
        lemma_slot_parts(t, x);
        vstd::seq_lib::to_multiset_insert(t, slot(t, x) as int, x);
        vstd::seq_lib::to_multiset_build(s.drop_last(), x);
        assert(s.drop_last().push(x) == s);
    }
}

/// The levels whose ranking key is `k`.
pub open spec fn of_rank<T: Quote>(k: int) -> spec_fn(T) -> bool {
    |x: T| x.rank_key() == k
}

/// Where no level of `s` has rank `k`, none is selected.
proof fn lemma_none_of_rank<T: Quote>(s: Seq<T>, k: int)
    requires
        forall|i: int| 0 <= i < s.len() ==> s[i].rank_key() != k,
    ensures
        s.filter(of_rank(k)) == Seq::<T>::empty(),
    decreases s.len(),
{
    reveal(Seq::filter);
    if s.len() > 0 {
        lemma_none_of_rank(s.drop_last(), k);
    }
}

/// Of a single level, the selection by rank holds it or nothing.
proof fn lemma_one_of_rank<T: Quote>(x: T, k: int)
    ensures
        seq![x].filter(of_rank(k)) == if x.rank_key() == k {
            seq![x]
        } else {
            Seq::<T>::empty()
        },
{
    reveal_with_fuel(Seq::filter, 2);
    assert(seq![x].drop_last() == Seq::<T>::empty());
}

/// Ranking is stable: the levels of any one rank come out in the order in
/// which they went in.
pub proof fn lemma_rank_stable<T: Quote>(s: Seq<T>, k: int)
    ensures
        stable_rank(s).filter(of_rank(k)) == s.filter(of_rank(k)),
    decreases s.len(),
{
    if s.len() > 0 {
        let pred = of_rank::<T>(k);
        let x = s.last();
        let t = stable_rank(s.drop_last());
        let p = slot(t, x) as int;
        let out = stable_rank(s);
        lemma_rank_stable(s.drop_last(), k);
        lemma_rank_ranked(s.drop_last());
        lemma_slot_parts(t, x);
        let head = t.subrange(0, p);
        let tail = t.subrange(p, t.len() as int);
        let one = seq![x];
        assert(t == head + tail);
        assert(out == head + one + tail);
        Seq::filter_distributes_over_add(head, tail, pred);
        Seq::filter_distributes_over_add(head, one, pred);
        Seq::filter_distributes_over_add(head + one, tail, pred);
        lemma_one_of_rank(x, k);
        assert(s.filter(pred) == if pred(x) {
            s.drop_last().filter(pred).push(x)
        } else {
            s.drop_last().filter(pred)
        }) by {
            reveal(Seq::filter);
        }
        if pred(x) {
            assert forall|j: int| 0 <= j < tail.len() implies tail[j].rank_key() != k by {
                assert(tail[j] == t[p + j]);
                assert(x.rank_key() < t[p].rank_key());
                assert(0 < j ==> t[p].rank_key() <= t[p + j].rank_key());
            }
            lemma_none_of_rank(tail, k);
            assert(out.filter(pred) == head.filter(pred) + seq![x] + Seq::<T>::empty());
            assert(t.filter(pred) == head.filter(pred) + Seq::<T>::empty());
            assert(out.filter(pred) == t.filter(pred).push(x));
        } else {
            assert(out.filter(pred) == head.filter(pred) + Seq::<T>::empty() + tail.filter(pred));
            assert(out.filter(pred) == t.filter(pred));
        }
    } else {
        assert(stable_rank(s) == s);
    }
}

/// The selection by rank from a sequence with one more level at its end.
proof fn lemma_of_rank_last<T: Quote>(s: Seq<T>, k: int)
    requires
        s.len() > 0,
    ensures
        s.filter(of_rank(k)) == if s.last().rank_key() == k {
            s.drop_last().filter(of_rank(k)).push(s.last())
        } else {
            s.drop_last().filter(of_rank(k))
        },
{
    reveal(Seq::filter);
}

/// A level of rank `k` stands in `s` wherever the selection by that rank is
/// not empty.
proof fn lemma_some_of_rank<T: Quote>(s: Seq<T>, k: int) -> (i: int)
    requires
        s.filter(of_rank(k)).len() > 0,
    ensures
        0 <= i < s.len(),
        s[i].rank_key() == k,
{
    if forall|j: int| 0 <= j < s.len() ==> s[j].rank_key() != k {
        lemma_none_of_rank(s, k);
    }
    choose|j: int| 0 <= j < s.len() && s[j].rank_key() == k
}

/// Two ranked sequences that agree, rank by rank, on their levels and on
/// the order of these are one and the same sequence.
pub proof fn lemma_ranked_same<T: Quote>(a: Seq<T>, b: Seq<T>)
    requires
        ranked(a),
        ranked(b),
        forall|k: int| a.filter(#[trigger] of_rank::<T>(k)) == b.filter(of_rank::<T>(k)),
    ensures
        a == b,
    decreases a.len(),
{
    if a.len() == 0 {
        if b.len() > 0 {
            let k = b.last().rank_key();
            lemma_of_rank_last(b, k);
            lemma_none_of_rank(a, k);
            assert(b.filter(of_rank::<T>(k)).len() > 0);
            assert(a.filter(of_rank::<T>(k)) == b.filter(of_rank::<T>(k)));
        }
        assert(a =~= b);
    } else {
        let x = a.last();
        let k = x.rank_key();
        lemma_of_rank_last(a, k);
        assert(a.filter(of_rank::<T>(k)).len() > 0);
        assert(a.filter(of_rank::<T>(k)) == b.filter(of_rank::<T>(k)));
        if b.len() == 0 {
            lemma_none_of_rank(b, k);
        }
        let y = b.last();
        let ky = y.rank_key();
        lemma_of_rank_last(b, ky);
        assert(b.filter(of_rank::<T>(ky)).len() > 0);
        assert(a.filter(of_rank::<T>(ky)) == b.filter(of_rank::<T>(ky)));
        let i = lemma_some_of_rank(a, ky);
        let j = lemma_some_of_rank(b, k);
        assert(ky <= k) by {
            assert(i < a.len() - 1 ==> a[i].rank_key() <= a[a.len() - 1].rank_key());
        }
        assert(k <= ky) by {
            assert(j < b.len() - 1 ==> b[j].rank_key() <= b[b.len() - 1].rank_key());
        }
        assert(x == y) by {
            assert(a.filter(of_rank::<T>(k)).last() == x);
            assert(b.filter(of_rank::<T>(k)).last() == y);
        }
        let a0 = a.drop_last();
        let b0 = b.drop_last();
        assert forall|q: int| a0.filter(#[trigger] of_rank::<T>(q)) == b0.filter(
            of_rank::<T>(q),
        ) by {
            lemma_of_rank_last(a, q);
            lemma_of_rank_last(b, q);
            assert(a.filter(of_rank::<T>(q)) == b.filter(of_rank::<T>(q)));
            if q == k {
                let fa = a0.filter(of_rank::<T>(q));
                let fb = b0.filter(of_rank::<T>(q));
                assert(fa.push(x).drop_last() == fa);
                assert(fb.push(x).drop_last() == fb);
            }
        }
        lemma_ranked_same(a0, b0);
        assert(a == a0.push(x));
        assert(b == b0.push(y));
    }
}

/// Ranking has one outcome only: whatever is ranked and holds, rank by
/// rank, the levels of `s` in their order in `s`, is `stable_rank(s)`.
pub proof fn lemma_rank_unique<T: Quote>(out: Seq<T>, s: Seq<T>)
    requires
        ranked(out),
        forall|k: int| out.filter(#[trigger] of_rank::<T>(k)) == s.filter(of_rank::<T>(k)),
    ensures
        out == stable_rank(s),
{
    lemma_rank_ranked(s);
    assert forall|k: int| out.filter(#[trigger] of_rank::<T>(k)) == stable_rank(s).filter(
        of_rank::<T>(k),
    ) by {
        lemma_rank_stable(s, k);
    }
    lemma_ranked_same(out, stable_rank(s));
}

/// What is cut off ranks no better than what is kept.
pub proof fn lemma_top_keeps_best<T: Quote>(s: Seq<T>, n: nat, i: int, j: int)
    requires
        ranked(s),
        0 <= i < top(s, n).len(),
        top(s, n).len() <= j < s.len(),
    ensures
        top(s, n)[i] == s[i],
        s[i].rank_key() <= s[j].rank_key(),
{
}

/// Ranks `levels`: best first, equal ranks in their given order.
pub fn rank<T: Quote>(levels: &Vec<T>) -> (out: Vec<T>)
    ensures
        out@ == stable_rank(levels@),
{
    let mut out: Vec<T> = Vec::new();
    let mut i: usize = 0;
    while i < levels.len()
        invariant
            i <= levels.len(),
            out@ == stable_rank(levels@.take(i as int)),
        decreases levels.len() - i,
    {
        let x = levels[i];
        let mut pos: usize = 0;
        while pos < out.len() && !x.outranks(&out[pos])
            invariant
                pos <= out.len(),
                forall|k: int| 0 <= k < pos ==> out@[k].rank_key() <= x.rank_key(),
            decreases out.len() - pos,
        {
            pos += 1;
        }
        proof {
            lemma_slot(out@, x, pos as int);
            assert(levels@.take(i + 1).drop_last() == levels@.take(i as int));
        }
        out.insert(pos, x);
        i += 1;
    }
    proof {
        assert(levels@.take(levels.len() as int) == levels@);
    }
    out
}

} // verus!
