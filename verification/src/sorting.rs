//! Ascending order on integer sequences, and a merge sort that produces it.

use vstd::multiset::Multiset;
use vstd::prelude::*;
use vstd::relations::{sorted_by, total_ordering};
use vstd::seq_lib::{lemma_multiset_commutative, lemma_sorted_unique};

verus! {

/// The elements of a machine-integer sequence as mathematical integers.
pub open spec fn ints(s: Seq<i64>) -> Seq<int> {
    s.map_values(|x: i64| x as int)
}

/// The usual order on the integers.
pub open spec fn int_leq() -> spec_fn(int, int) -> bool {
    |a: int, b: int| a <= b
}

/// No element is followed by a smaller one.
pub open spec fn ascending(s: Seq<int>) -> bool {
    forall|i: int, j: int| 0 <= i <= j < s.len() ==> s[i] <= s[j]
}

/// The elements of `s` rearranged into ascending order.
pub open spec fn in_order(s: Seq<int>) -> Seq<int> {
    s.sort_by(int_leq())
}

/// `in_order(s)` is ascending and holds exactly the elements of `s`, each as
/// often as `s` does.
pub proof fn lemma_in_order(s: Seq<int>)
    ensures
        ascending(in_order(s)),
        in_order(s).to_multiset() == s.to_multiset(),
        in_order(s).len() == s.len(),
        forall|i: int| 0 <= i < s.len() ==> s.contains(#[trigger] in_order(s)[i]),
{
    broadcast use vstd::seq_lib::group_to_multiset_ensures;

    assert(total_ordering(int_leq()));
    s.lemma_sort_by_ensures(int_leq());
    let t = in_order(s);
    s.to_multiset_ensures();
    t.to_multiset_ensures();
    assert(sorted_by(t, int_leq()));
    assert forall|i: int, j: int| 0 <= i <= j < t.len() implies t[i] <= t[j] by {
        if i < j {
            assert(int_leq()(t[i], t[j]));
        }
    }
    assert forall|i: int| 0 <= i < s.len() implies s.contains(#[trigger] t[i]) by {
        assert(t.contains(t[i]));
        assert(t.to_multiset().count(t[i]) > 0);
    }
}

/// An ascending sequence with the elements of `s` is `in_order(s)`: there is
/// only one.
pub proof fn lemma_in_order_unique(s: Seq<int>, t: Seq<int>)
    requires
        ascending(t),
        t.to_multiset() == s.to_multiset(),
    ensures
        t == in_order(s),
{
    lemma_in_order(s);
    let u = in_order(s);
    assert(total_ordering(int_leq()));
    assert(sorted_by(t, int_leq()));
    assert(sorted_by(u, int_leq()));
    lemma_sorted_unique(t, u, int_leq());
}

proof fn lemma_ints_push(s: Seq<i64>, x: i64)
    ensures
        ints(s.push(x)) == ints(s).push(x as int),
{
    assert(ints(s.push(x)) =~= ints(s).push(x as int));
}

proof fn lemma_ints_take_next(s: Seq<i64>, i: int)
    requires
        0 <= i < s.len(),
    ensures
        ints(s.take(i + 1)).to_multiset() == ints(s.take(i)).to_multiset().insert(s[i] as int),
{
    broadcast use vstd::seq_lib::group_to_multiset_ensures;

    assert(s.take(i + 1) =~= s.take(i).push(s[i]));
    lemma_ints_push(s.take(i), s[i]);
}

/// Merges two ascending vectors into one.
fn merge(a: &Vec<i64>, b: &Vec<i64>) -> (out: Vec<i64>)
    requires
        ascending(ints(a@)),
        ascending(ints(b@)),
    ensures
        ascending(ints(out@)),
        ints(out@).to_multiset() == ints(a@).to_multiset().add(ints(b@).to_multiset()),
{
    let mut out: Vec<i64> = Vec::new();
    let mut i: usize = 0;
    let mut j: usize = 0;
    proof {
        assert(ints(a@.take(0)) =~= Seq::<int>::empty());
        assert(ints(b@.take(0)) =~= Seq::<int>::empty());
        assert(ints(out@) =~= Seq::<int>::empty());
        broadcast use vstd::multiset::group_multiset_axioms;
        broadcast use vstd::seq_lib::group_to_multiset_ensures;

        assert(Seq::<int>::empty().to_multiset() =~= Multiset::<int>::empty());
        assert(Multiset::<int>::empty().add(Multiset::<int>::empty()) =~= Multiset::<int>::empty());
    }
    while i < a.len() || j < b.len()
        invariant
            i <= a.len(),
            j <= b.len(),
            ascending(ints(a@)),
            ascending(ints(b@)),
            ascending(ints(out@)),
            ints(out@).to_multiset() == ints(a@.take(i as int)).to_multiset().add(
                ints(b@.take(j as int)).to_multiset(),
            ),
            forall|k: int, m: int| 0 <= k < out.len() && i <= m < a.len() ==> out[k] <= a[m],
            forall|k: int, m: int| 0 <= k < out.len() && j <= m < b.len() ==> out[k] <= b[m],
        decreases a.len() - i + b.len() - j,
    {
        let ghost before = out@;
        let from_left = if j >= b.len() {
            true
        } else if i >= a.len() {
            false
        } else {
            a[i] <= b[j]
        };
        if from_left {
            let x = a[i];
            out.push(x);
            proof {
                broadcast use vstd::multiset::group_multiset_axioms;
                broadcast use vstd::seq_lib::group_to_multiset_ensures;

                lemma_ints_push(before, x);
                lemma_ints_take_next(a@, i as int);
                assert(ints(out@).to_multiset() =~= ints(a@.take(i + 1)).to_multiset().add(
                    ints(b@.take(j as int)).to_multiset(),
                ));
                assert forall|k: int, m: int| 0 <= k < out.len() && i + 1 <= m < a.len() implies out[k]
                    <= a[m] by {
                    if k == before.len() {
                        assert(ints(a@)[i as int] <= ints(a@)[m]);
                    }
                }
                assert forall|k: int, m: int| 0 <= k < out.len() && j <= m < b.len() implies out[k]
                    <= b[m] by {
                    if k == before.len() {
                        assert(ints(b@)[j as int] <= ints(b@)[m]);
                    }
                }
                assert forall|k: int, l: int| 0 <= k <= l < ints(out@).len() implies ints(out@)[k]
                    <= ints(out@)[l] by {
                    if l < before.len() {
                        assert(ints(before)[k] <= ints(before)[l]);
                    }
                }
            }
            i = i + 1;
        } else {
            let x = b[j];
            out.push(x);
            proof {
                broadcast use vstd::multiset::group_multiset_axioms;
                broadcast use vstd::seq_lib::group_to_multiset_ensures;

                lemma_ints_push(before, x);
                lemma_ints_take_next(b@, j as int);
                assert(ints(out@).to_multiset() =~= ints(a@.take(i as int)).to_multiset().add(
                    ints(b@.take(j + 1)).to_multiset(),
                ));
                assert forall|k: int, m: int| 0 <= k < out.len() && j + 1 <= m < b.len() implies out[k]
                    <= b[m] by {
                    if k == before.len() {
                        assert(ints(b@)[j as int] <= ints(b@)[m]);
                    }
                }
                assert forall|k: int, m: int| 0 <= k < out.len() && i <= m < a.len() implies out[k]
                    <= a[m] by {
                    if k == before.len() {
                        assert(ints(a@)[i as int] <= ints(a@)[m]);
                    }
                }
                assert forall|k: int, l: int| 0 <= k <= l < ints(out@).len() implies ints(out@)[k]
                    <= ints(out@)[l] by {
                    if l < before.len() {
                        assert(ints(before)[k] <= ints(before)[l]);
                    }
                }
            }
            j = j + 1;
        }
    }
    proof {
        assert(a@.take(i as int) =~= a@);
        assert(b@.take(j as int) =~= b@);
    }
    out
}

/// Sorts the part of `v` from `lo` up to `hi`.
fn sort_range(v: &Vec<i64>, lo: usize, hi: usize) -> (out: Vec<i64>)
    requires
        lo <= hi <= v.len(),
    ensures
        ascending(ints(out@)),
        ints(out@).to_multiset() == ints(v@.subrange(lo as int, hi as int)).to_multiset(),
    decreases hi - lo,
{
    if hi - lo <= 1 {
        let mut out: Vec<i64> = Vec::new();
        if lo < hi {
            out.push(v[lo]);
        }
        proof {
            assert(out@ =~= v@.subrange(lo as int, hi as int));
        }
        out
    } else {
        let mid = lo + (hi - lo) / 2;
        let left = sort_range(v, lo, mid);
        let right = sort_range(v, mid, hi);
        let out = merge(&left, &right);
        proof {
            let l = v@.subrange(lo as int, mid as int);
            let r = v@.subrange(mid as int, hi as int);
            assert(ints(v@.subrange(lo as int, hi as int)) =~= ints(l) + ints(r));
            lemma_multiset_commutative(ints(l), ints(r));
        }
        out
    }
}

/// Returns the elements of `v` in ascending order.
pub fn sort(v: &Vec<i64>) -> (out: Vec<i64>)
    ensures
        ints(out@) == in_order(ints(v@)),
{
    let out = sort_range(v, 0, v.len());
    proof {
        assert(v@.subrange(0, v.len() as int) =~= v@);
        lemma_in_order_unique(ints(v@), ints(out@));
    }
    out
}

} // verus!
