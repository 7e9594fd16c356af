//! A stable sort by an integer rank.
//!
//! The dataset streams are sorted by timestamp and the liquidation events by
//! `(ts, price bin, side)`; both orders must be stable (equal ranks keep their
//! input order) so that the fold over them is deterministic.

use vstd::prelude::*;

verus! {

/// A value ordered by an integer rank that depends on its view alone.
pub trait Ranked: View + Sized {
    /// The rank the sort orders by.
    spec fn rank_of(v: Self::V) -> int;

    /// Compares two ranks.
    fn rank_le(&self, other: &Self) -> (r: bool)
        ensures
            r == (Self::rank_of(self@) <= Self::rank_of(other@)),
    ;
}

/// The views of a sequence of values.
pub open spec fn views<T: View>(s: Seq<T>) -> Seq<T::V> {
    s.map_values(|x: T| x@)
}

/// The ranks never decrease along the sequence.
pub open spec fn sorted_by_rank<T: Ranked>(s: Seq<T::V>) -> bool {
    forall|i: int, j: int| 0 <= i < j < s.len() ==> T::rank_of(s[i]) <= T::rank_of(s[j])
}

/// The predicate "has rank `k`".
pub open spec fn has_rank<T: Ranked>(k: int) -> spec_fn(T::V) -> bool {
    |x: T::V| T::rank_of(x) == k
}

/// The elements of rank `k`, in sequence order.
pub open spec fn rank_class<T: Ranked>(s: Seq<T::V>, k: int) -> Seq<T::V> {
    s.filter(has_rank::<T>(k))
}

/// `out` is `inp` sorted by rank with ties kept in input order: it is sorted,
/// and for every rank its elements of that rank are exactly those of `inp`, in
/// the same order.
pub open spec fn is_stable_sort_of<T: Ranked>(out: Seq<T::V>, inp: Seq<T::V>) -> bool {
    &&& sorted_by_rank::<T>(out)
    &&& forall|k: int| #[trigger] rank_class::<T>(out, k) == rank_class::<T>(inp, k)
}

proof fn lemma_class_of_insert<T: Ranked>(s: Seq<T::V>, p: int, x: T::V, k: int)
    requires
        0 <= p <= s.len(),
        forall|q: int| p <= q < s.len() ==> T::rank_of(s[q]) > T::rank_of(x),
    ensures
        rank_class::<T>(s.insert(p, x), k) == if T::rank_of(x) == k {
            rank_class::<T>(s, k).push(x)
        } else {
            rank_class::<T>(s, k)
        },
{
    let pred = has_rank::<T>(k);
    let a = s.subrange(0, p);
    let b = s.subrange(p, s.len() as int);
    assert(s =~= a + b);
    assert(s.insert(p, x) =~= a.push(x) + b);
    Seq::filter_distributes_over_add(a, b, pred);
    Seq::filter_distributes_over_add(a.push(x), b, pred);
    a.lemma_filter_push(x, pred);
    if T::rank_of(x) == k {
        assert forall|q: int| 0 <= q < b.len() implies !pred(b[q]) by {
            assert(b[q] == s[p + q]);
        }
        b.lemma_all_neg_filter_empty(pred);
        assert(b.filter(pred) =~= Seq::<T::V>::empty());
        assert(a.filter(pred) + b.filter(pred) =~= a.filter(pred));
        assert(a.filter(pred).push(x) + b.filter(pred) =~= a.filter(pred).push(x));
    }
}

proof fn lemma_in_class<T: Ranked>(q: Seq<T::V>, i: int)
    requires
        0 <= i < q.len(),
    ensures
        rank_class::<T>(q, T::rank_of(q[i])).contains(q[i]),
{
    q.lemma_filter_contains(has_rank::<T>(T::rank_of(q[i])), i);
}

proof fn lemma_class_member<T: Ranked>(q: Seq<T::V>, k: int, x: T::V)
    requires
        rank_class::<T>(q, k).contains(x),
    ensures
        q.contains(x),
        T::rank_of(x) == k,
{
    q.lemma_filter_contains_rev(has_rank::<T>(k), x);
    let c = rank_class::<T>(q, k);
    let i = choose|i: int| 0 <= i < c.len() && c[i] == x;
    q.lemma_filter_pred(has_rank::<T>(k), i);
}

proof fn lemma_class_drop_last<T: Ranked>(q: Seq<T::V>, k: int)
    requires
        q.len() > 0,
    ensures
        rank_class::<T>(q, k) == if T::rank_of(q.last()) == k {
            rank_class::<T>(q.drop_last(), k).push(q.last())
        } else {
            rank_class::<T>(q.drop_last(), k)
        },
{
    assert(q =~= q.drop_last().push(q.last()));
    q.drop_last().lemma_filter_push(q.last(), has_rank::<T>(k));
}

/// A stable sort is unique: two stable sorts of the same sequence are equal.
pub proof fn lemma_stable_sort_unique<T: Ranked>(a: Seq<T::V>, b: Seq<T::V>, s: Seq<T::V>)
    requires
        is_stable_sort_of::<T>(a, s),
        is_stable_sort_of::<T>(b, s),
    ensures
        a == b,
    decreases a.len(),
{
    assert forall|k: int| #[trigger] rank_class::<T>(a, k) == rank_class::<T>(b, k) by {
        assert(rank_class::<T>(a, k) == rank_class::<T>(s, k));
        assert(rank_class::<T>(b, k) == rank_class::<T>(s, k));
    }
    if a.len() == 0 {
        if b.len() > 0 {
            lemma_in_class::<T>(b, 0);
            assert(rank_class::<T>(a, T::rank_of(b[0])) == rank_class::<T>(b, T::rank_of(b[0])));
            lemma_class_member::<T>(a, T::rank_of(b[0]), b[0]);
        }
        assert(a =~= b);
    } else {
        let x = a.last();
        let k = T::rank_of(x);
        lemma_in_class::<T>(a, a.len() - 1);
        assert(rank_class::<T>(a, k) == rank_class::<T>(b, k));
        lemma_class_member::<T>(b, k, x);
        let ix = choose|i: int| 0 <= i < b.len() && b[i] == x;
        let y = b.last();
        let j = T::rank_of(y);
        lemma_in_class::<T>(b, b.len() - 1);
        assert(rank_class::<T>(a, j) == rank_class::<T>(b, j));
        lemma_class_member::<T>(a, j, y);
        let iy = choose|i: int| 0 <= i < a.len() && a[i] == y;
        assert(T::rank_of(a[iy]) <= T::rank_of(a[a.len() - 1]));
        assert(T::rank_of(b[ix]) <= T::rank_of(b[b.len() - 1]));
        assert(j == k);
        lemma_class_drop_last::<T>(a, k);
        lemma_class_drop_last::<T>(b, k);
        assert(x == rank_class::<T>(a, k).last());
        assert(y == rank_class::<T>(b, k).last());
        let a2 = a.drop_last();
        let b2 = b.drop_last();
        assert forall|r: int| #[trigger] rank_class::<T>(b2, r) == rank_class::<T>(a2, r) by {
            lemma_class_drop_last::<T>(a, r);
            lemma_class_drop_last::<T>(b, r);
            assert(rank_class::<T>(a, r) == rank_class::<T>(b, r));
            if r == k {
                assert(rank_class::<T>(a2, r) =~= rank_class::<T>(a, r).drop_last());
                assert(rank_class::<T>(b2, r) =~= rank_class::<T>(b, r).drop_last());
            }
        }
        assert(is_stable_sort_of::<T>(a2, a2));
        assert(is_stable_sort_of::<T>(b2, a2));
        lemma_stable_sort_unique::<T>(a2, b2, a2);
        assert(a =~= a2.push(x));
        assert(b =~= b2.push(y));
    }
}

/// Where `x` goes in the sorted `s`: after every element of rank at most
/// its own.
pub open spec fn insert_pos<T: Ranked>(s: Seq<T::V>, x: T::V) -> int
    decreases s.len(),
{
    if s.len() == 0 {
        0
    } else if T::rank_of(s.last()) <= T::rank_of(x) {
        s.len() as int
    } else {
        insert_pos::<T>(s.drop_last(), x)
    }
}

/// `s` stably sorted by rank, by insertion.
pub open spec fn sorted_by_insertion<T: Ranked>(s: Seq<T::V>) -> Seq<T::V>
    decreases s.len(),
{
    if s.len() == 0 {
        s
    } else {
        let rest = sorted_by_insertion::<T>(s.drop_last());
        rest.insert(insert_pos::<T>(rest, s.last()), s.last())
    }
}

proof fn lemma_insert_pos<T: Ranked>(s: Seq<T::V>, x: T::V)
    requires
        sorted_by_rank::<T>(s),
    ensures
        0 <= insert_pos::<T>(s, x) <= s.len(),
        forall|q: int| 0 <= q < insert_pos::<T>(s, x) ==> T::rank_of(s[q]) <= T::rank_of(x),
        forall|q: int| insert_pos::<T>(s, x) <= q < s.len() ==> T::rank_of(s[q]) > T::rank_of(x),
    decreases s.len(),
{
    if s.len() > 0 {
        let d = s.drop_last();
        assert(sorted_by_rank::<T>(d));
        lemma_insert_pos::<T>(d, x);
        if T::rank_of(s.last()) <= T::rank_of(x) {
            assert forall|q: int| 0 <= q < s.len() implies T::rank_of(s[q]) <= T::rank_of(x) by {
                assert(T::rank_of(s[q]) <= T::rank_of(s[s.len() - 1]));
            }
        } else {
            let p = insert_pos::<T>(d, x);
            assert forall|q: int| 0 <= q < p implies T::rank_of(s[q]) <= T::rank_of(x) by {
                assert(s[q] == d[q]);
            }
            assert forall|q: int| p <= q < s.len() implies T::rank_of(s[q]) > T::rank_of(x) by {
                if q < s.len() - 1 {
                    assert(s[q] == d[q]);
                }
            }
        }
    }
}

/// A stable sort exists: insertion sorting is one.
pub proof fn lemma_sorted_by_insertion<T: Ranked>(s: Seq<T::V>)
    ensures
        is_stable_sort_of::<T>(sorted_by_insertion::<T>(s), s),
        sorted_by_insertion::<T>(s).len() == s.len(),
    decreases s.len(),
{
    if s.len() == 0 {
    } else {
        let d = s.drop_last();
        let x = s.last();
        let rest = sorted_by_insertion::<T>(d);
        lemma_sorted_by_insertion::<T>(d);
        let p = insert_pos::<T>(rest, x);
        lemma_insert_pos::<T>(rest, x);
        let out = rest.insert(p, x);
        assert(s =~= d.push(x));
        assert forall|k: int| #[trigger] rank_class::<T>(out, k) == rank_class::<T>(s, k) by {
            lemma_class_of_insert::<T>(rest, p, x, k);
            d.lemma_filter_push(x, has_rank::<T>(k));
        }
        assert forall|a: int, b: int| 0 <= a < b < out.len() implies T::rank_of(out[a]) <= T::rank_of(out[b]) by {
            if a < p && b > p {
                assert(out[b] == rest[b - 1]);
            } else if a == p {
                assert(out[b] == rest[b - 1]);
            } else if a > p {
                assert(out[a] == rest[a - 1]);
                assert(out[b] == rest[b - 1]);
            }
        }
    }
}

/// A stable sort keeps exactly the elements of its input: an element occurs
/// in one iff it occurs in the other, and the lengths agree.
pub proof fn lemma_stable_sort_permutes<T: Ranked>(out: Seq<T::V>, inp: Seq<T::V>)
    requires
        is_stable_sort_of::<T>(out, inp),
    ensures
        out.len() == inp.len(),
        forall|x: T::V| out.contains(x) <==> inp.contains(x),
{
    lemma_sorted_by_insertion::<T>(inp);
    lemma_stable_sort_unique::<T>(out, sorted_by_insertion::<T>(inp), inp);
    assert forall|x: T::V| out.contains(x) <==> inp.contains(x) by {
        let k = T::rank_of(x);
        if out.contains(x) {
            let i = choose|i: int| 0 <= i < out.len() && out[i] == x;
            lemma_in_class::<T>(out, i);
            assert(rank_class::<T>(out, k) == rank_class::<T>(inp, k));
            lemma_class_member::<T>(inp, k, x);
        }
        if inp.contains(x) {
            let i = choose|i: int| 0 <= i < inp.len() && inp[i] == x;
            lemma_in_class::<T>(inp, i);
            assert(rank_class::<T>(out, k) == rank_class::<T>(inp, k));
            lemma_class_member::<T>(out, k, x);
        }
    }
}

/// The elements of `v` in reverse order.
fn reversed<T>(v: Vec<T>) -> (r: Vec<T>)
    ensures
        r@.len() == v@.len(),
        forall|j: int| 0 <= j < r@.len() ==> r@[j] == v@[v@.len() - 1 - j],
{
    let ghost orig = v@;
    let mut v = v;
    let mut r: Vec<T> = Vec::new();
    while v.len() > 0
        invariant
            v@.len() + r@.len() == orig.len(),
            v@ == orig.subrange(0, v@.len() as int),
            forall|j: int| 0 <= j < r@.len() ==> r@[j] == orig[orig.len() - 1 - j],
        decreases v.len(),
    {
        let ghost before = v@;
        let x = v.pop().unwrap();
        assert(v@ =~= orig.subrange(0, v@.len() as int));
        assert(x == before[v@.len() as int]);
        r.push(x);
    }
    r
}

proof fn lemma_class_empty_below<T: Ranked>(s: Seq<T::V>, k: int)
    requires
        forall|q: int| 0 <= q < s.len() ==> T::rank_of(s[q]) < k,
    ensures
        rank_class::<T>(s, k) == Seq::<T::V>::empty(),
{
    let pred = has_rank::<T>(k);
    assert forall|q: int| 0 <= q < s.len() implies !pred(s[q]) by {}
    s.lemma_all_neg_filter_empty(pred);
    assert(s.filter(pred) =~= Seq::<T::V>::empty());
}

/// Merges two rank-sorted vectors; on equal ranks the elements of `a` come
/// first.
fn merge<T: Ranked>(a: Vec<T>, b: Vec<T>) -> (out: Vec<T>)
    requires
        sorted_by_rank::<T>(views(a@)),
        sorted_by_rank::<T>(views(b@)),
    ensures
        out@.len() == a@.len() + b@.len(),
        sorted_by_rank::<T>(views(out@)),
        forall|k: int| #[trigger] rank_class::<T>(views(out@), k) == rank_class::<T>(views(a@), k) + rank_class::<T>(views(b@), k),
{
    let ghost va = views(a@);
    let ghost vb = views(b@);
    let ghost na = va.len() as int;
    let ghost nb = vb.len() as int;
    let mut ra = reversed(a);
    let mut rb = reversed(b);
    let mut out: Vec<T> = Vec::new();
    assert forall|k: int| #[trigger] rank_class::<T>(views(out@), k) == rank_class::<T>(va.take(0), k) + rank_class::<T>(vb.take(0), k) by {
        reveal(Seq::filter);
        assert(views(out@) =~= Seq::<T::V>::empty());
        assert(va.take(0) =~= Seq::<T::V>::empty());
        assert(vb.take(0) =~= Seq::<T::V>::empty());
        assert(rank_class::<T>(Seq::<T::V>::empty(), k) + rank_class::<T>(Seq::<T::V>::empty(), k) =~= Seq::<T::V>::empty());
    }
    while ra.len() > 0 || rb.len() > 0
        invariant
            va.len() == na,
            vb.len() == nb,
            sorted_by_rank::<T>(va),
            sorted_by_rank::<T>(vb),
            ra@.len() <= na,
            rb@.len() <= nb,
            forall|j: int| 0 <= j < ra@.len() ==> ra@[j]@ == va[na - 1 - j],
            forall|j: int| 0 <= j < rb@.len() ==> rb@[j]@ == vb[nb - 1 - j],
            out@.len() == (na - ra@.len()) + (nb - rb@.len()),
            sorted_by_rank::<T>(views(out@)),
            forall|k: int| #[trigger] rank_class::<T>(views(out@), k) == rank_class::<T>(va.take(na - ra@.len()), k) + rank_class::<T>(vb.take(nb - rb@.len()), k),
            out@.len() > 0 && ra@.len() > 0 ==> T::rank_of(views(out@).last()) <= T::rank_of(va[na - ra@.len()]),
            out@.len() > 0 && rb@.len() > 0 ==> T::rank_of(views(out@).last()) <= T::rank_of(vb[nb - rb@.len()]),
            nb - rb@.len() > 0 && ra@.len() > 0 ==> T::rank_of(vb[nb - rb@.len() - 1]) < T::rank_of(va[na - ra@.len()]),
        decreases ra@.len() + rb@.len(),
    {
        let ghost ia = na - ra@.len();
        let ghost ib = nb - rb@.len();
        let ghost before = views(out@);
        let take_a = if ra.len() == 0 {
            false
        } else if rb.len() == 0 {
            true
        } else {
            ra[ra.len() - 1].rank_le(&rb[rb.len() - 1])
        };
        if take_a {
            let x = ra.pop().unwrap();
            assert(x@ == va[ia]);
            out.push(x);
            let ghost after = views(out@);
            assert(after =~= before.push(x@));
            assert(va.take(ia + 1) =~= va.take(ia).push(x@));
            assert forall|i: int, j: int| 0 <= i < j < after.len() implies T::rank_of(after[i]) <= T::rank_of(after[j]) by {
                if j == after.len() - 1 && i < before.len() - 1 {
                    assert(T::rank_of(before[i]) <= T::rank_of(before[before.len() - 1]));
                }
            }
            assert forall|k: int| #[trigger] rank_class::<T>(views(out@), k) == rank_class::<T>(va.take(ia + 1), k) + rank_class::<T>(vb.take(ib), k) by {
                va.take(ia).lemma_filter_push(x@, has_rank::<T>(k));
                before.lemma_filter_push(x@, has_rank::<T>(k));
                assert(rank_class::<T>(before, k) == rank_class::<T>(va.take(ia), k) + rank_class::<T>(vb.take(ib), k));
                assert(rank_class::<T>(after, k) == rank_class::<T>(views(out@), k));
                if T::rank_of(x@) == k {
                    assert forall|q: int| 0 <= q < vb.take(ib).len() implies T::rank_of(vb.take(ib)[q]) < k by {
                        if q < ib - 1 {
                            assert(T::rank_of(vb[q]) <= T::rank_of(vb[ib - 1]));
                        }
                    }
                    lemma_class_empty_below::<T>(vb.take(ib), k);
                    assert(rank_class::<T>(va.take(ia), k) + rank_class::<T>(vb.take(ib), k) =~= rank_class::<T>(va.take(ia), k));
                    assert(rank_class::<T>(va.take(ia), k).push(x@) + rank_class::<T>(vb.take(ib), k) =~= rank_class::<T>(va.take(ia), k).push(x@));
                }
            }
            if ra.len() > 0 {
                assert(T::rank_of(va[ia]) <= T::rank_of(va[ia + 1]));
            }
        } else {
            let x = rb.pop().unwrap();
            assert(x@ == vb[ib]);
            out.push(x);
            let ghost after = views(out@);
            assert(after =~= before.push(x@));
            assert(vb.take(ib + 1) =~= vb.take(ib).push(x@));
            assert forall|i: int, j: int| 0 <= i < j < after.len() implies T::rank_of(after[i]) <= T::rank_of(after[j]) by {
                if j == after.len() - 1 && i < before.len() - 1 {
                    assert(T::rank_of(before[i]) <= T::rank_of(before[before.len() - 1]));
                }
            }
            assert forall|k: int| #[trigger] rank_class::<T>(views(out@), k) == rank_class::<T>(va.take(ia), k) + rank_class::<T>(vb.take(ib + 1), k) by {
                vb.take(ib).lemma_filter_push(x@, has_rank::<T>(k));
                before.lemma_filter_push(x@, has_rank::<T>(k));
                assert(rank_class::<T>(before, k) == rank_class::<T>(va.take(ia), k) + rank_class::<T>(vb.take(ib), k));
                assert(rank_class::<T>(after, k) == rank_class::<T>(views(out@), k));
                if T::rank_of(x@) == k {
                    assert(rank_class::<T>(va.take(ia), k) + rank_class::<T>(vb.take(ib), k).push(x@) =~= (rank_class::<T>(va.take(ia), k) + rank_class::<T>(vb.take(ib), k)).push(x@));
                }
            }
            if rb.len() > 0 {
                assert(T::rank_of(vb[ib]) <= T::rank_of(vb[ib + 1]));
            }
        }
    }
    assert(va.take(na) =~= va);
    assert(vb.take(nb) =~= vb);
    out
}

/// Sorts `v` by rank, keeping elements of equal rank in their input order
/// (a merge sort: `O(n log n)` comparisons).
pub fn stable_sort<T: Ranked>(v: Vec<T>) -> (out: Vec<T>)
    ensures
        is_stable_sort_of::<T>(views(out@), views(v@)),
        out@.len() == v@.len(),
    decreases v@.len(),
{
    let ghost orig = views(v@);
    if v.len() <= 1 {
        return v;
    }
    let mut left = v;
    let mid = left.len() / 2;
    let right = left.split_off(mid);
    let ghost vl = views(left@);
    let ghost vr = views(right@);
    assert(orig =~= vl + vr);
    let sorted_left = stable_sort(left);
    let sorted_right = stable_sort(right);
    let out = merge(sorted_left, sorted_right);
    assert forall|k: int| #[trigger] rank_class::<T>(views(out@), k) == rank_class::<T>(orig, k) by {
        Seq::filter_distributes_over_add(vl, vr, has_rank::<T>(k));
    }
    out
}

} // verus!
