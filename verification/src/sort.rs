//! Sorting of latency samples into ascending order.

use vstd::prelude::*;
use vstd::seq_lib::{group_to_multiset_ensures, lemma_multiset_commutative};
use vstd::multiset::group_multiset_axioms;

verus! {

/// Whether `s` is in ascending order.
pub open spec fn is_ascending(s: Seq<u64>) -> bool {
    forall|i: int, j: int| 0 <= i < j < s.len() ==> s[i] <= s[j]
}

/// Merges two ascending vectors into one ascending vector holding the
/// elements of both.
fn merge(a: &Vec<u64>, b: &Vec<u64>) -> (r: Vec<u64>)
    requires
        is_ascending(a@),
        is_ascending(b@),
    ensures
        is_ascending(r@),
        r@.to_multiset() == a@.to_multiset().add(b@.to_multiset()),
{
    broadcast use group_to_multiset_ensures, group_multiset_axioms;

    let mut r: Vec<u64> = Vec::new();
    let mut i: usize = 0;
    let mut j: usize = 0;
    while i < a.len() || j < b.len()
        invariant
            i <= a.len(),
            j <= b.len(),
            is_ascending(a@),
            is_ascending(b@),
            is_ascending(r@),
            r@.to_multiset() == a@.take(i as int).to_multiset().add(b@.take(j as int).to_multiset()),
            r@.len() > 0 && i < a.len() ==> r@.last() <= a@[i as int],
            r@.len() > 0 && j < b.len() ==> r@.last() <= b@[j as int],
        decreases a.len() + b.len() - i - j,
    {
        if j >= b.len() || (i < a.len() && a[i] <= b[j]) {
            let x = a[i];
            let ghost r0 = r@;
            r.push(x);
            proof {
                assert(a@.take(i + 1) == a@.take(i as int).push(x));
                assert(r@ == r0.push(x));
                vstd::seq_lib::to_multiset_build(r0, x);
                vstd::seq_lib::to_multiset_build(a@.take(i as int), x);
                assert(a@.take(i + 1).to_multiset() == a@.take(i as int).to_multiset().insert(x));
                assert(a@.take(i as int).to_multiset().insert(x).add(b@.take(j as int).to_multiset())
                    =~= a@.take(i as int).to_multiset().add(b@.take(j as int).to_multiset()).insert(x));
            }
            i = i + 1;
        } else {
            let x = b[j];
            let ghost r0 = r@;
            r.push(x);
            proof {
                assert(b@.take(j + 1) == b@.take(j as int).push(x));
                assert(r@ == r0.push(x));
                vstd::seq_lib::to_multiset_build(r0, x);
                vstd::seq_lib::to_multiset_build(b@.take(j as int), x);
                assert(b@.take(j + 1).to_multiset() == b@.take(j as int).to_multiset().insert(x));
                assert(a@.take(i as int).to_multiset().add(b@.take(j as int).to_multiset().insert(x))
                    =~= a@.take(i as int).to_multiset().add(b@.take(j as int).to_multiset()).insert(x));
            }
            j = j + 1;
        }
    }
    assert(a@.take(a.len() as int) == a@);
    assert(b@.take(b.len() as int) == b@);
    r
}

/// The elements of `v[lo..hi]` in ascending order.
fn sort_range(v: &Vec<u64>, lo: usize, hi: usize) -> (r: Vec<u64>)
    requires
        lo <= hi <= v.len(),
    ensures
        is_ascending(r@),
        r@.to_multiset() == v@.subrange(lo as int, hi as int).to_multiset(),
    decreases hi - lo,
{
    if hi - lo <= 1 {
        let mut r: Vec<u64> = Vec::new();
        if hi > lo {
            r.push(v[lo]);
        }
        assert(r@ == v@.subrange(lo as int, hi as int));
        r
    } else {
        let mid = lo + (hi - lo) / 2;
        let left = sort_range(v, lo, mid);
        let right = sort_range(v, mid, hi);
        proof {
            assert(v@.subrange(lo as int, hi as int) == v@.subrange(lo as int, mid as int)
                + v@.subrange(mid as int, hi as int));
            lemma_multiset_commutative(
                v@.subrange(lo as int, mid as int),
                v@.subrange(mid as int, hi as int),
            );
        }
        merge(&left, &right)
    }
}

/// The elements of `v` in ascending order.
pub fn sort_ascending(v: &Vec<u64>) -> (r: Vec<u64>)
    ensures
        is_ascending(r@),
        r@.to_multiset() == v@.to_multiset(),
{
    let r = sort_range(v, 0, v.len());
    assert(v@.subrange(0, v.len() as int) == v@);
    r
}

} // verus!
