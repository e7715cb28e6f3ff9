//! Index-based removal for the cascade engine.
//!
//! The engine first scans a sequence and collects the indices of obsolete
//! entries, then removes exactly those entries in a second pass, highest
//! index first, so that pending indices stay valid. [`remove_indices`] proves
//! that this equals filtering the sequence by the marking predicate.

use vstd::prelude::*;

verus! {

/// The complement of `p`, as one shared term so that every contract below
/// speaks of the same filter predicate.
pub open spec fn keep_fn<T>(p: spec_fn(T) -> bool) -> spec_fn(T) -> bool {
    |x: T| !p(x)
}

/// Whether `idx` lists, in strictly increasing order, exactly the positions
/// of `v0` whose entries satisfy `p`.
pub open spec fn marks_exactly<T>(v0: Seq<T>, idx: Seq<usize>, p: spec_fn(T) -> bool) -> bool {
    &&& v0.len() <= usize::MAX
    &&& forall|t1: int, t2: int| 0 <= t1 < t2 < idx.len() ==> idx[t1] < idx[t2]
    &&& forall|t: int| 0 <= t < idx.len() ==> #[trigger] idx[t] < v0.len()
    &&& forall|i: int| 0 <= i < v0.len() ==> (p(#[trigger] v0[i]) <==> idx.contains(i as usize))
}

/// The boundary below which nothing has been removed yet: the next index to
/// remove, or the length when none was processed.
pub open spec fn pending_bound<T>(v0: Seq<T>, idx: Seq<usize>, t: int) -> int {
    if t == idx.len() {
        v0.len() as int
    } else {
        idx[t] as int
    }
}

/// A sequence whose elements all satisfy `q` filters to itself.
pub proof fn lemma_filter_all<T>(s: Seq<T>, q: spec_fn(T) -> bool)
    requires
        forall|i: int| 0 <= i < s.len() ==> q(#[trigger] s[i]),
    ensures
        s.filter(q) == s,
    decreases s.len(),
{
    reveal(Seq::filter);
    if s.len() > 0 {
        lemma_filter_all(s.drop_last(), q);
        assert(s.filter(q) =~= s);
    }
}

/// A sequence with no element satisfying `q` filters to empty.
pub proof fn lemma_filter_none<T>(s: Seq<T>, q: spec_fn(T) -> bool)
    requires
        forall|i: int| 0 <= i < s.len() ==> !q(#[trigger] s[i]),
    ensures
        s.filter(q) == Seq::<T>::empty(),
    decreases s.len(),
{
    reveal(Seq::filter);
    if s.len() > 0 {
        lemma_filter_none(s.drop_last(), q);
        assert(s.filter(q) =~= Seq::<T>::empty());
    }
}

/// Every element of a filtered sequence stands somewhere in the original.
pub proof fn lemma_filter_member<T>(s: Seq<T>, q: spec_fn(T) -> bool, i: int)
    requires
        0 <= i < s.filter(q).len(),
    ensures
        exists|w: int| 0 <= w < s.len() && s[w] == s.filter(q)[i],
    decreases s.len(),
{
    reveal(Seq::filter);
    if s.len() > 0 {
        let f = s.filter(q);
        let fp = s.drop_last().filter(q);
        if q(s.last()) && i == f.len() - 1 {
            assert(s[s.len() - 1] == f[i]);
        } else {
            lemma_filter_member(s.drop_last(), q, i);
            let w = choose|w: int| 0 <= w < s.drop_last().len() && s.drop_last()[w] == fp[i];
            assert(s[w] == s.filter(q)[i]);
        }
    }
}

/// Two elements of a filtered sequence, in order, stand in the original in
/// the same order.
pub proof fn lemma_filter_pair<T>(s: Seq<T>, q: spec_fn(T) -> bool, i1: int, i2: int)
    requires
        0 <= i1 < i2 < s.filter(q).len(),
    ensures
        exists|w1: int, w2: int|
            0 <= w1 < w2 < s.len() && s[w1] == s.filter(q)[i1] && s[w2] == s.filter(q)[i2],
    decreases s.len(),
{
    reveal(Seq::filter);
    let f = s.filter(q);
    let sp = s.drop_last();
    let fp = sp.filter(q);
    if q(s.last()) && i2 == f.len() - 1 {
        lemma_filter_member(sp, q, i1);
        let w1 = choose|w: int| 0 <= w < sp.len() && sp[w] == fp[i1];
        let w2 = s.len() - 1;
        assert(s[w1] == f[i1] && s[w2] == f[i2]);
        assert(0 <= w1 < w2 < s.len());
    } else {
        lemma_filter_pair(sp, q, i1, i2);
        let (w1, w2) = choose|w1: int, w2: int|
            0 <= w1 < w2 < sp.len() && sp[w1] == fp[i1] && sp[w2] == fp[i2];
        assert(s[w1] == f[i1] && s[w2] == f[i2]);
    }
}

/// Positions strictly before the first marked index are unmarked.
proof fn lemma_prefix_unmarked<T>(v0: Seq<T>, idx: Seq<usize>, p: spec_fn(T) -> bool, b: int)
    requires
        marks_exactly(v0, idx, p),
        b == pending_bound(v0, idx, 0),
    ensures
        forall|i: int| 0 <= i < b ==> !p(#[trigger] v0[i]),
{
    assert forall|i: int| 0 <= i < b implies !p(v0[i]) by {
        if p(v0[i]) {
            assert(idx.contains(i as usize));
            let w = choose|w: int| 0 <= w < idx.len() && idx[w] == i as usize;
            assert(idx.len() > 0);
            if 0 < w {
                assert(idx[0] < idx[w]);
            }
            assert(idx[0] as int <= i);
            assert(b == idx[0] as int);
            assert(false);
        }
    }
}

/// Positions strictly between the marked index `idx[t]` and the next marked
/// index (or the end) are unmarked.
proof fn lemma_between_unmarked<T>(v0: Seq<T>, idx: Seq<usize>, p: spec_fn(T) -> bool, t: int)
    requires
        marks_exactly(v0, idx, p),
        0 <= t < idx.len(),
    ensures
        forall|i: int|
            idx[t] < i < pending_bound(v0, idx, t + 1) ==> !p(#[trigger] v0[i]),
{
    let b = pending_bound(v0, idx, t + 1);
    assert forall|i: int| idx[t] < i < b implies !p(v0[i]) by {
        assert(0 <= i < v0.len());
        if p(v0[i]) {
            assert(idx.contains(i as usize));
            let w = choose|w: int| 0 <= w < idx.len() && idx[w] == i as usize;
            if w < t {
                assert(idx[w] < idx[t]);
                assert(false);
            } else if w == t {
                assert(false);
            } else {
                // w > t, so idx[t + 1] <= idx[w] == i < b, but b <= idx[t + 1]
                assert(t + 1 < idx.len());
                if t + 1 < w {
                    assert(idx[t + 1] < idx[w]);
                }
                assert(idx[t + 1] as int <= i);
                assert(b == idx[t + 1] as int);
                assert(false);
            }
        }
    }
}

/// Appending an unmarked entry leaves the marks exact.
pub proof fn lemma_marks_push_unmarked<T>(v0: Seq<T>, idx: Seq<usize>, p: spec_fn(T) -> bool, x: T)
    requires
        marks_exactly(v0, idx, p),
        !p(x),
        v0.len() + 1 <= usize::MAX,
    ensures
        marks_exactly(v0.push(x), idx, p),
{
    let v1 = v0.push(x);
    assert forall|i: int| 0 <= i < v1.len() implies (p(#[trigger] v1[i]) <==> idx.contains(
        i as usize,
    )) by {
        if i < v0.len() {
            assert(v1[i] == v0[i]);
        } else {
            assert(v1[i] == x);
            if idx.contains(i as usize) {
                let w = choose|w: int| 0 <= w < idx.len() && idx[w] == i as usize;
                assert(idx[w] < v0.len());
                assert(false);
            }
        }
    }
}

/// Appending a marked entry, and its index, leaves the marks exact.
pub proof fn lemma_marks_push_marked<T>(v0: Seq<T>, idx: Seq<usize>, p: spec_fn(T) -> bool, x: T)
    requires
        marks_exactly(v0, idx, p),
        p(x),
        v0.len() + 1 <= usize::MAX,
    ensures
        marks_exactly(v0.push(x), idx.push(v0.len() as usize), p),
{
    let v1 = v0.push(x);
    let idx1 = idx.push(v0.len() as usize);
    assert forall|t1: int, t2: int| 0 <= t1 < t2 < idx1.len() implies idx1[t1] < idx1[t2] by {
        if t2 < idx.len() {
            assert(idx[t1] < idx[t2]);
        } else {
            assert(idx1[t2] == v0.len() as usize);
            assert(idx1[t1] == idx[t1]);
            assert(idx[t1] < v0.len());
        }
    }
    assert forall|i: int| 0 <= i < v1.len() implies (p(#[trigger] v1[i]) <==> idx1.contains(
        i as usize,
    )) by {
        if i < v0.len() {
            assert(v1[i] == v0[i]);
            if idx1.contains(i as usize) {
                let w = choose|w: int| 0 <= w < idx1.len() && idx1[w] == i as usize;
                if w < idx.len() {
                    assert(idx[w] == i as usize);
                    assert(idx.contains(i as usize));
                } else {
                    assert(idx1[w] == v0.len() as usize);
                    assert(false);
                }
            }
            if idx.contains(i as usize) {
                let w = choose|w: int| 0 <= w < idx.len() && idx[w] == i as usize;
                assert(idx1[w] == i as usize);
                assert(idx1.contains(i as usize));
            }
        } else {
            assert(v1[i] == x);
            assert(idx1[idx1.len() - 1] == v0.len() as usize);
            assert(idx1.contains(i as usize));
        }
    }
}

/// One step of the descending removal: removing the marked entry at `idx[t]`
/// from a state that already filtered everything above it yields the state
/// that filtered everything at or above `idx[t]`.
#[verifier::rlimit(100)]
proof fn lemma_remove_step<T>(v0: Seq<T>, idx: Seq<usize>, p: spec_fn(T) -> bool, t: int)
    requires
        marks_exactly(v0, idx, p),
        0 <= t < idx.len(),
    ensures
        ({
            let q = keep_fn(p);
            let len = v0.len() as int;
            let bp = pending_bound(v0, idx, t + 1);
            let ji = idx[t] as int;
            (v0.subrange(0, bp) + v0.subrange(bp, len).filter(q)).remove(ji) == v0.subrange(0, ji)
                + v0.subrange(ji, len).filter(q)
        }),
{
    let q = keep_fn(p);
    let len = v0.len() as int;
    let bp = pending_bound(v0, idx, t + 1);
    let ji = idx[t] as int;
    if t + 1 < idx.len() {
        assert(idx[t] < idx[t + 1]);
    }
    assert(ji < bp);
    assert(idx.contains(idx[t]));
    assert(p(v0[ji]));
    lemma_between_unmarked(v0, idx, p, t);
    let sing = v0.subrange(ji, ji + 1);
    let mid = v0.subrange(ji + 1, bp);
    let hi = v0.subrange(bp, len);
    assert(forall|i: int| 0 <= i < mid.len() ==> q(#[trigger] mid[i]));
    lemma_filter_all(mid, q);
    assert(forall|i: int| 0 <= i < sing.len() ==> !q(#[trigger] sing[i]));
    lemma_filter_none(sing, q);
    assert(v0.subrange(ji, len) =~= (sing + mid) + hi);
    Seq::filter_distributes_over_add(sing + mid, hi, q);
    Seq::filter_distributes_over_add(sing, mid, q);
    assert((sing + mid).filter(q) =~= mid);
    assert(v0.subrange(ji, len).filter(q) == mid + hi.filter(q));
    let pre = v0.subrange(0, bp) + hi.filter(q);
    assert(pre.remove(ji) =~= (v0.subrange(0, ji) + mid) + hi.filter(q));
    assert((v0.subrange(0, ji) + mid) + hi.filter(q) =~= v0.subrange(0, ji) + (mid + hi.filter(
        q,
    )));
}

/// Remove from `v` exactly the entries marked by `idx`, highest index first.
///
/// `idx` must list, in increasing order, exactly the positions whose entries
/// satisfy `p`; the result is then the filter of `v` by the complement of
/// `p`.
#[verifier::rlimit(100)]
pub fn remove_indices<T>(v: &mut Vec<T>, idx: &Vec<usize>, Ghost(p): Ghost<spec_fn(T) -> bool>)
    requires
        marks_exactly(old(v)@, idx@, p),
    ensures
        final(v)@ == old(v)@.filter(keep_fn(p)),
{
    let ghost v0 = old(v)@;
    let ghost q = keep_fn(p);
    let ghost len = v0.len() as int;
    proof {
        assert(v0.subrange(len, len) =~= Seq::<T>::empty());
        lemma_filter_none(v0.subrange(len, len), q);
        assert(v@ =~= v0.subrange(0, len) + v0.subrange(len, len).filter(q));
    }
    let mut t: usize = idx.len();
    while t > 0
        invariant
            t <= idx@.len(),
            marks_exactly(v0, idx@, p),
            q == keep_fn(p),
            len == v0.len() as int,
            v@ == v0.subrange(0, pending_bound(v0, idx@, t as int)) + v0.subrange(
                pending_bound(v0, idx@, t as int),
                len,
            ).filter(q),
        decreases t,
    {
        let ghost bp = pending_bound(v0, idx@, t as int);
        t -= 1;
        let j = idx[t];
        proof {
            if t + 1 < idx@.len() {
                assert(idx@[t as int] < idx@[t + 1]);
            }
            assert((j as int) < bp);
            assert(v@.len() >= bp);
        }
        v.remove(j);
        proof {
            lemma_remove_step(v0, idx@, p, t as int);
            assert(v@ == v0.subrange(0, j as int) + v0.subrange(j as int, len).filter(q));
        }
    }
    proof {
        let b0 = pending_bound(v0, idx@, 0);
        lemma_prefix_unmarked(v0, idx@, p, b0);
        assert(forall|i: int|
            0 <= i < v0.subrange(0, b0).len() ==> q(#[trigger] v0.subrange(0, b0)[i]));
        lemma_filter_all(v0.subrange(0, b0), q);
        assert(v0 =~= v0.subrange(0, b0) + v0.subrange(b0, len));
        Seq::filter_distributes_over_add(v0.subrange(0, b0), v0.subrange(b0, len), q);
        assert(v@ == v0.subrange(0, b0) + v0.subrange(b0, len).filter(q));
        assert(v@ == v0.filter(q));
    }
}

} // verus!
